use vstd::prelude::*;
use vstd::string::{StrSliceExecFns, StringExecFns};
use crate::manifest::{ManifestError, manifest_package_authors, manifest_package_description,
    manifest_package_license, manifest_package_name, manifest_package_repository,
    manifest_package_version, manifest_parses, manifest_readme_path, opt_string_view,
    package_authors, package_description, package_license, package_name, package_readme_path,
    package_repository, package_version, parse_ok, strings_view};

verus! {

/// Project metadata included at the top of the generated file.
#[derive(Debug)]
pub struct ProjectMetadata {
    pub name: String,
    pub version: String,
    pub description: Option<String>,
    pub readme: Option<String>,
    pub repository: Option<String>,
    pub authors: Vec<String>,
    pub license: Option<String>,
}

/// The authors joined with `, ` between them.
pub open spec fn join_authors(s: Seq<String>) -> Seq<char>
    decreases s.len(),
{
    if s.len() == 0 {
        Seq::empty()
    } else if s.len() == 1 {
        s[0]@
    } else {
        s[0]@ + ", "@ + join_authors(s.drop_first())
    }
}

proof fn lemma_join_snoc(s: Seq<String>)
    requires
        s.len() >= 2,
    ensures
        join_authors(s) == join_authors(s.drop_last()) + ", "@ + s.last()@,
    decreases s.len(),
{
    reveal_with_fuel(join_authors, 3);
    if s.len() == 2 {
        assert(s.drop_first().len() == 1);
        assert(s.drop_first()[0] == s[1]);
        assert(s.drop_last().len() == 1);
        assert(s.drop_last()[0] == s[0]);
        assert(join_authors(s.drop_last()) + ", "@ + s.last()@ =~= s[0]@ + ", "@ + s[1]@);
        assert(join_authors(s) =~= s[0]@ + ", "@ + s[1]@);
    } else {
        lemma_join_snoc(s.drop_first());
        assert(s.drop_first().drop_last() =~= s.drop_last().drop_first());
        assert(s.drop_first().last() == s.last());
        assert(s.drop_last()[0] == s[0]);
        assert(s.drop_last().len() >= 2);
        assert(join_authors(s.drop_last()) == s.drop_last()[0]@ + ", "@ + join_authors(
            s.drop_last().drop_first(),
        ));
        assert(s[0]@ + ", "@ + (join_authors(s.drop_last().drop_first()) + ", "@ + s.last()@)
            =~= (s[0]@ + ", "@ + join_authors(s.drop_last().drop_first())) + ", "@ + s.last()@);
    }
}

/// The first newline's index in `s`, or `s.len()` if there is none.
pub open spec fn find_nl_char(s: Seq<char>) -> int
    decreases s.len(),
{
    if s.len() == 0 {
        0
    } else if s.first() == '\n' {
        0
    } else {
        1 + find_nl_char(s.drop_first())
    }
}

proof fn lemma_find_nl_char(s: Seq<char>, m: int)
    requires
        0 <= m <= s.len(),
        forall|k: int| 0 <= k < m ==> s[k] != '\n',
        m == s.len() || s[m] == '\n',
    ensures
        find_nl_char(s) == m,
    decreases m,
{
    if m > 0 {
        assert(s.first() != '\n');
        lemma_find_nl_char(s.drop_first(), m - 1);
    }
}

/// Each line of `s`, in order, prefixed with `// ` and newline-terminated.
/// A trailing newline in `s` does not produce an extra empty line.
pub open spec fn comment_block(s: Seq<char>) -> Seq<char>
    decreases s.len(),
{
    if s.len() == 0 {
        Seq::empty()
    } else {
        let j = find_nl_char(s);
        if 0 <= j < s.len() {
            "// "@ + s.take(j) + "\n"@ + comment_block(s.skip(j + 1))
        } else {
            "// "@ + s + "\n"@
        }
    }
}

/// The formatted metadata block: the project line, then one line each for
/// the description, the authors, the license and the repository where
/// present, a blank line, and the readme as a commented block with its own
/// decoration.
pub open spec fn format_spec(m: ProjectMetadata) -> Seq<char> {
    "// Project: "@ + m.name@ + " (v"@ + m.version@ + ")\n"@ + (match m.description {
        Some(d) => "// Description: "@ + d@ + "\n"@,
        None => Seq::empty(),
    }) + (if m.authors@.len() > 0 {
        "// Authors: "@ + join_authors(m.authors@) + "\n"@
    } else {
        Seq::empty()
    }) + (match m.license {
        Some(l) => "// License: "@ + l@ + "\n"@,
        None => Seq::empty(),
    }) + (match m.repository {
        Some(rp) => "// Repository: "@ + rp@ + "\n"@,
        None => Seq::empty(),
    }) + "\n"@ + (match m.readme {
        Some(r) => "// README\n// ======\n"@ + comment_block(r@) + "// ======\n\n"@,
        None => Seq::empty(),
    })
}

impl ProjectMetadata {
    /// Renders the metadata block exactly as `format_spec` lays it out.
    pub fn format(&self) -> (out: String)
        ensures
            out@ == format_spec(*self),
    {
        let mut out = String::new();
        out.append("// Project: ");
        out.append(self.name.as_str());
        out.append(" (v");
        out.append(self.version.as_str());
        out.append(")\n");
        let ghost g1 = "// Project: "@ + self.name@ + " (v"@ + self.version@ + ")\n"@;
        proof {
            assert(out@ =~= g1);
        }
        if let Some(d) = &self.description {
            out.append("// Description: ");
            out.append(d.as_str());
            out.append("\n");
        }
        let ghost g2 = g1 + (match &self.description {
            Some(d) => "// Description: "@ + d@ + "\n"@,
            None => Seq::<char>::empty(),
        });
        proof {
            assert(out@ =~= g2);
        }
        if self.authors.len() > 0 {
            out.append("// Authors: ");
            let ghost base = out@;
            let mut i: usize = 0;
            while i < self.authors.len()
                invariant
                    0 < self.authors@.len(),
                    0 <= i <= self.authors@.len(),
                    base == g2 + "// Authors: "@,
                    i == 0 ==> out@ == base,
                    i > 0 ==> out@ == base + join_authors(self.authors@.take(i as int)),
                decreases self.authors@.len() - i,
            {
                let ghost prev = out@;
                if i > 0 {
                    out.append(", ");
                }
                out.append(self.authors[i].as_str());
                proof {
                    let a = self.authors@;
                    if i == 0 {
                        assert(a.take(1).len() == 1);
                        assert(a.take(1)[0] == a[0]);
                        assert(out@ =~= base + join_authors(a.take(1)));
                    } else {
                        lemma_join_snoc(a.take(i + 1));
                        assert(a.take(i + 1).drop_last() =~= a.take(i as int));
                        assert(a.take(i + 1).last() == a[i as int]);
                        assert(out@ =~= prev + ", "@ + a[i as int]@);
                        assert(out@ =~= base + (join_authors(a.take(i as int)) + ", "@ + a[
                            i as int]@));
                    }
                }
                i = i + 1;
            }
            out.append("\n");
            proof {
                assert(self.authors@.take(self.authors@.len() as int) =~= self.authors@);
            }
        }
        let ghost g3 = g2 + (if self.authors@.len() > 0 {
            "// Authors: "@ + join_authors(self.authors@) + "\n"@
        } else {
            Seq::<char>::empty()
        });
        proof {
            assert(out@ =~= g3);
        }
        if let Some(l) = &self.license {
            out.append("// License: ");
            out.append(l.as_str());
            out.append("\n");
        }
        let ghost g4 = g3 + (match &self.license {
            Some(l) => "// License: "@ + l@ + "\n"@,
            None => Seq::<char>::empty(),
        });
        proof {
            assert(out@ =~= g4);
        }
        if let Some(rp) = &self.repository {
            out.append("// Repository: ");
            out.append(rp.as_str());
            out.append("\n");
        }
        let ghost g5 = g4 + (match &self.repository {
            Some(rp) => "// Repository: "@ + rp@ + "\n"@,
            None => Seq::<char>::empty(),
        });
        proof {
            assert(out@ =~= g5);
        }
        out.append("\n");
        let ghost g6 = g5 + "\n"@;
        proof {
            assert(out@ =~= g6);
        }
        if let Some(rm) = &self.readme {
            out.append("// README\n// ======\n");
            let ghost base = out@;
            let rs = rm.as_str();
            let n = rs.unicode_len();
            let ghost mut done: Seq<char> = Seq::empty();
            proof {
                assert(rm@.skip(0) =~= rm@);
            }
            let mut pos: usize = 0;
            while pos < n
                invariant
                    rs@ == rm@,
                    n == rm@.len(),
                    0 <= pos <= n,
                    base == g6 + "// README\n// ======\n"@,
                    out@ == base + done,
                    comment_block(rm@) == done + comment_block(rm@.skip(pos as int)),
                decreases n - pos,
            {
                let mut j: usize = pos;
                while j < n && rs.get_char(j) != '\n'
                    invariant
                        rs@ == rm@,
                        n == rm@.len(),
                        pos <= j <= n,
                        forall|k: int| pos <= k < j ==> rm@[k] != '\n',
                    decreases n - j,
                {
                    j = j + 1;
                }
                let line = rs.substring_char(pos, j);
                out.append("// ");
                out.append(line);
                out.append("\n");
                proof {
                    let s2 = rm@.skip(pos as int);
                    assert(forall|k: int| 0 <= k < j - pos ==> s2[k] == rm@[pos + k]);
                    if j < n {
                        assert(s2[j - pos] == rm@[j as int]);
                        lemma_find_nl_char(s2, j - pos);
                        assert(s2.take(j - pos) =~= rm@.subrange(pos as int, j as int));
                        assert(s2.skip(j - pos + 1) =~= rm@.skip(j + 1));
                        assert(comment_block(s2) == "// "@ + s2.take(j - pos) + "\n"@
                            + comment_block(rm@.skip(j + 1)));
                        assert(out@ =~= base + (done + ("// "@ + line@ + "\n"@)));
                        done = done + ("// "@ + line@ + "\n"@);
                        assert(comment_block(rm@) == done + comment_block(rm@.skip(j + 1)));
                    } else {
                        lemma_find_nl_char(s2, j - pos);
                        assert(find_nl_char(s2) == s2.len());
                        assert(s2.len() > 0);
                        assert(comment_block(s2) == "// "@ + s2 + "\n"@);
                        assert(line@ =~= s2);
                        assert(out@ =~= base + (done + ("// "@ + line@ + "\n"@)));
                        done = done + ("// "@ + line@ + "\n"@);
                        assert(rm@.skip(n as int).len() == 0);
                        assert(comment_block(rm@) == done + comment_block(rm@.skip(n as int)));
                    }
                }
                pos = if j < n {
                    j + 1
                } else {
                    n
                };
            }
            proof {
                assert(rm@.skip(n as int).len() == 0);
                assert(comment_block(rm@.skip(n as int)) == Seq::<char>::empty());
                assert(comment_block(rm@) =~= done);
            }
            out.append("// ======\n\n");
            proof {
                assert(out@ =~= g6 + ("// README\n// ======\n"@ + comment_block(rm@)
                    + "// ======\n\n"@));
            }
        }
        proof {
            assert(out@ =~= format_spec(*self));
        }
        out
    }

    /// Extracts the metadata from manifest bytes: a success exactly when
    /// the bytes parse and declare a package, carrying that package's name,
    /// version, description, repository, authors and license; fields that a
    /// workspace would supply by inheritance are left absent (the version
    /// empty).  The readme is not read here: the declared readme path is
    /// handed back for the caller to load, and the returned metadata
    /// carries no readme yet.
    pub fn from_manifest(manifest: &Vec<u8>) -> (r: Result<
        (ProjectMetadata, Option<String>),
        ManifestError,
    >)
        ensures
            r is Ok <==> manifest_parses(manifest@) && manifest_package_name(manifest@) is Some,
            r is Err ==> r->Err_0 == (if !manifest_parses(manifest@) {
                ManifestError::Unparsable
            } else {
                ManifestError::NoPackage
            }),
            r is Ok ==> {
                let m = r->Ok_0.0;
                &&& Some(m.name@) == manifest_package_name(manifest@)
                &&& m.version@ == (match manifest_package_version(manifest@) {
                    Some(v) => v,
                    None => Seq::<char>::empty(),
                })
                &&& opt_string_view(m.description) == manifest_package_description(manifest@)
                &&& opt_string_view(m.repository) == manifest_package_repository(manifest@)
                &&& strings_view(m.authors@) == manifest_package_authors(manifest@)
                &&& opt_string_view(m.license) == manifest_package_license(manifest@)
                &&& m.readme is None
                &&& opt_string_view(r->Ok_0.1) == manifest_readme_path(manifest@)
            },
    {
        if !parse_ok(manifest.as_slice()) {
            return Err(ManifestError::Unparsable);
        }
        let name = match package_name(manifest.as_slice()) {
            Some(n) => n,
            None => {
                return Err(ManifestError::NoPackage);
            },
        };
        let version = match package_version(manifest.as_slice()) {
            Some(v) => v,
            None => String::new(),
        };
        let metadata = ProjectMetadata {
            name,
            version,
            description: package_description(manifest.as_slice()),
            readme: None,
            repository: package_repository(manifest.as_slice()),
            authors: package_authors(manifest.as_slice()),
            license: package_license(manifest.as_slice()),
        };
        Ok((metadata, package_readme_path(manifest.as_slice())))
    }
}

} // verus!
