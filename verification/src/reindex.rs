//! The full rebuild: clear both tables, then walk the documents in order,
//! writing every link occurrence and then the file record of each. The first
//! failure aborts the rebuild; entries already written remain.

use vstd::prelude::*;

use crate::codec::{enc_file, enc_reference};
use crate::errors::GrimoireError;
use crate::file::{parse_spec, File, FileModel};
use crate::reference::ReferenceModel;
use crate::repository_builder::RepositoryBuilder;
use crate::store::empty_contents;

verus! {

/// A rebuild's failure: which document, and the tables as they stood.
pub enum RebuildFault {
    /// A document had no recognizable title line.
    MissingHeader { path: Seq<char>, files: Map<Seq<char>, Seq<u8>>, refs: Map<Seq<char>, Seq<u8>> },
    /// A document's title was already claimed in this same rebuild.
    DuplicateTitle {
        path: Seq<char>,
        header: Seq<char>,
        files: Map<Seq<char>, Seq<u8>>,
        refs: Map<Seq<char>, Seq<u8>>,
    },
}

/// One occurrence marked as written into the index.
pub open spec fn mark_persisted(r: ReferenceModel) -> ReferenceModel {
    ReferenceModel { persisted: true, ..r }
}

/// A file record whose occurrences are all marked written, as it stands in
/// memory by the time the record itself is stored.
pub open spec fn mark_refs_persisted(f: FileModel) -> FileModel {
    FileModel { references: f.references.map_values(|r: ReferenceModel| mark_persisted(r)), ..f }
}

/// Writing a run of occurrences, in order: the last write per link text
/// wins.
pub open spec fn upsert_refs_model(
    refs: Map<Seq<char>, Seq<u8>>,
    rs: Seq<ReferenceModel>,
) -> Map<Seq<char>, Seq<u8>>
    decreases rs.len(),
{
    if rs.len() == 0 {
        refs
    } else {
        upsert_refs_model(refs, rs.drop_last()).insert(
            rs.last().header,
            enc_reference(rs.last()),
        )
    }
}

/// Replaying a rebuild over the remaining documents, starting from the
/// given tables: parse each, write its occurrences, then its record under
/// its title — unless the title is already claimed.
pub open spec fn reindex_docs(
    files: Map<Seq<char>, Seq<u8>>,
    refs: Map<Seq<char>, Seq<u8>>,
    docs: Seq<(Seq<char>, Seq<char>)>,
) -> Result<(Map<Seq<char>, Seq<u8>>, Map<Seq<char>, Seq<u8>>), RebuildFault>
    decreases docs.len(),
{
    if docs.len() == 0 {
        Ok((files, refs))
    } else {
        match parse_spec(docs[0].0, docs[0].1) {
            None => Err(RebuildFault::MissingHeader { path: docs[0].0, files, refs }),
            Some(fm) => {
                let refs2 = upsert_refs_model(refs, fm.references);
                if files.contains_key(fm.header) {
                    Err(
                        RebuildFault::DuplicateTitle {
                            path: docs[0].0,
                            header: fm.header,
                            files,
                            refs: refs2,
                        },
                    )
                } else {
                    reindex_docs(
                        files.insert(fm.header, enc_file(mark_refs_persisted(fm))),
                        refs2,
                        docs.drop_first(),
                    )
                }
            },
        }
    }
}

/// The documents of a rebuild, as text.
pub open spec fn docs_view(documents: Seq<(String, String)>) -> Seq<(Seq<char>, Seq<char>)> {
    documents.map_values(|d: (String, String)| (d.0@, d.1@))
}

/// The last component of a path: everything after its last separator.
pub open spec fn spec_file_name(p: Seq<char>) -> Seq<char>
    decreases p.len(),
{
    if p.len() == 0 {
        p
    } else if p.last() == '/' {
        Seq::empty()
    } else {
        spec_file_name(p.drop_last()).push(p.last())
    }
}

/// Whether a file name has an extension equal to `md`: a dot after its
/// first character, with `md` following the last such dot.
pub open spec fn spec_has_markdown_extension(p: Seq<char>) -> bool {
    let n = spec_file_name(p);
    exists|d: int|
        0 < d < n.len() && n[d] == '.' && (forall|k: int| d < k < n.len() ==> n[k] != '.')
            && n.subrange(d + 1, n.len() as int) == "md"@
}

/// Whether a path names a Markdown document.
pub fn path_has_markdown_extension(path: &str) -> (r: bool)
    ensures
        r == spec_has_markdown_extension(path@),
{
    let n = path.unicode_len();
    let mut name_start: usize = 0;
    let mut last_dot: usize = 0;
    let mut has_dot = false;
    let mut i: usize = 0;
    while i < n
        invariant
            i <= n,
            n == path@.len(),
            name_start <= i,
            spec_file_name(path@.take(i as int)) == path@.take(i as int).skip(name_start as int),
            has_dot ==> name_start < last_dot < i && path@[last_dot as int] == '.' && (forall|
                k: int,
            |
                last_dot < k < i ==> path@[k] != '.'),
            !has_dot ==> (forall|k: int| name_start < k < i ==> path@[k] != '.'),
        decreases n - i,
    {
        let c = path.get_char(i);
        proof {
            assert(path@.take(i as int + 1).drop_last() =~= path@.take(i as int));
            assert(path@.take(i as int + 1).last() == path@[i as int]);
        }
        if c == '/' {
            name_start = i + 1;
            has_dot = false;
            proof {
                assert(spec_file_name(path@.take(i as int + 1)) =~= path@.take(i as int + 1).skip(
                    i as int + 1,
                ));
            }
        } else {
            if c == '.' && i > name_start {
                last_dot = i;
                has_dot = true;
            }
            proof {
                assert(spec_file_name(path@.take(i as int + 1)) =~= path@.take(i as int + 1).skip(
                    name_start as int,
                ));
            }
        }
        i = i + 1;
    }
    proof {
        assert(path@.take(n as int) =~= path@);
    }
    if !has_dot {
        proof {
            let name = spec_file_name(path@);
            assert(name == path@.skip(name_start as int));
            assert forall|d: int| 0 < d < name.len() implies name[d] != '.' by {
                assert(name[d] == path@[name_start + d]);
            }
        }
        return false;
    }
    if n - last_dot != 3 {
        proof {
            let name = spec_file_name(path@);
            assert(name == path@.skip(name_start as int));
            let dd = last_dot - name_start;
            assert forall|d: int|
                0 < d < name.len() && name[d] == '.' && (forall|k: int|
                    d < k < name.len() ==> name[k] != '.') implies name.subrange(
                d + 1,
                name.len() as int,
            ) != "md"@ by {
                assert(name[dd] == '.');
                assert(d == dd) by {
                    if d < dd {
                        assert(name[dd] != '.');
                    } else if d > dd {
                        assert(path@[name_start + d] != '.');
                        assert(name[d] != '.');
                    }
                }
                assert(name.subrange(d + 1, name.len() as int).len() == n - last_dot - 1);
                assert("md"@.len() == 2) by {
                    reveal_strlit("md");
                }
            }
        }
        return false;
    }
    let r = path.get_char(last_dot + 1) == 'm' && path.get_char(last_dot + 2) == 'd';
    proof {
        reveal_strlit("md");
        let name = spec_file_name(path@);
        assert(name == path@.skip(name_start as int));
        let dd = last_dot - name_start;
        assert(name[dd] == '.');
        assert forall|d: int|
            0 < d < name.len() && name[d] == '.' && (forall|k: int|
                d < k < name.len() ==> name[k] != '.') implies d == dd by {
            if d < dd {
                assert(name[dd] != '.');
            } else if d > dd {
                assert(path@[name_start + d] != '.');
                assert(name[d] != '.');
            }
        }
        if r {
            assert(name.subrange(dd + 1, name.len() as int) =~= "md"@) by {
                assert(name.subrange(dd + 1, name.len() as int).len() == 2);
                assert(name.subrange(dd + 1, name.len() as int)[0] == path@[last_dot + 1]);
                assert(name.subrange(dd + 1, name.len() as int)[1] == path@[last_dot + 2]);
            }
            assert(forall|k: int| dd < k < name.len() ==> name[k] == path@[name_start + k]
                && name[k] != '.');
            assert(spec_has_markdown_extension(path@));
        } else {
            if name.subrange(dd + 1, name.len() as int) == "md"@ {
                assert(name.subrange(dd + 1, name.len() as int)[0] == path@[last_dot + 1]);
                assert(name.subrange(dd + 1, name.len() as int)[1] == path@[last_dot + 2]);
                assert(false);
            }
        }
    }
    r
}

/// Whether a directory entry's name marks it hidden: it begins with a dot.
pub fn os_str_is_hidden(name: &str) -> (r: bool)
    ensures
        r == (name@.len() > 0 && name@[0] == '.'),
{
    if name.unicode_len() == 0 {
        false
    } else {
        name.get_char(0) == '.'
    }
}

/// One rebuild pass: clear both tables, then walk the documents. The
/// caller flushes afterwards, whether the pass succeeded or not.
#[verifier::loop_isolation(false)]
#[verifier::rlimit(100)]
fn reindex_pass(repositories: &mut RepositoryBuilder, documents: &Vec<(String, String)>) -> (r:
    Result<(), GrimoireError>)
    requires
        forall|i: int|
            0 <= i < documents@.len() ==> (#[trigger] documents@[i]).1@.len() + 1 < u32::MAX
                as nat,
    ensures
        r is Ok ==> (reindex_docs(empty_contents(), empty_contents(), docs_view(documents@))
            matches Ok(pair) && final(repositories).spec_files().contents() == pair.0
            && final(repositories).spec_references().contents() == pair.1),
        r matches Err(GrimoireError::HeaderNotFound { path }) ==> (reindex_docs(
            empty_contents(),
            empty_contents(),
            docs_view(documents@),
        ) matches Err(RebuildFault::MissingHeader { path: p, files, refs }) && path@ == p
            && final(repositories).spec_files().contents() == files
            && final(repositories).spec_references().contents() == refs),
        r matches Err(GrimoireError::DuplicateHeader { new_path, header, .. }) ==> (reindex_docs(
            empty_contents(),
            empty_contents(),
            docs_view(documents@),
        ) matches Err(RebuildFault::DuplicateTitle { path: p, header: h, files, refs })
            && new_path@ == p && header@ == h
            && final(repositories).spec_files().contents() == files
            && final(repositories).spec_references().contents() == refs),
        r matches Err(GrimoireError::InvalidRecord { .. }) ==> exists|k: Seq<char>|
            final(repositories).spec_files().contents().contains_key(k) && (
            #[trigger] crate::codec::sdec_file_full(
                final(repositories).spec_files().contents()[k],
            )) is None,
        r is Err ==> (r matches Err(GrimoireError::HeaderNotFound { .. })
            || r matches Err(GrimoireError::DuplicateHeader { .. })
            || r matches Err(GrimoireError::InvalidRecord { .. })
            || r matches Err(GrimoireError::Store { .. })),
{
    let ghost dv = docs_view(documents@);
    match repositories.clear() {
        Ok(()) => {},
        Err(e) => {
            return Err(e);
        },
    }
    match repositories.flush() {
        Ok(()) => {},
        Err(e) => {
            return Err(e);
        },
    }
    proof {
        assert(dv.skip(0) =~= dv);
    }
    let mut i: usize = 0;
    while i < documents.len()
        invariant
            i <= documents@.len(),
            reindex_docs(empty_contents(), empty_contents(), dv) == reindex_docs(
                repositories.spec_files().contents(),
                repositories.spec_references().contents(),
                dv.skip(i as int),
            ),
        decreases documents@.len() - i,
    {
        let doc = &documents[i];
        proof {
            assert(dv[i as int] == (doc.0@, doc.1@));
            assert(dv.skip(i as int)[0] == dv[i as int]);
            assert(dv.skip(i as int).drop_first() =~= dv.skip(i as int + 1));
        }
        let mut file = match File::parse_from_content(doc.0.as_str(), doc.1.as_str()) {
            Ok(f) => f,
            Err(e) => {
                return Err(e);
            },
        };
        let ghost fm = parse_spec(doc.0@, doc.1@).unwrap();
        let ghost refs0 = repositories.spec_references().contents();
        let ghost files0 = repositories.spec_files().contents();
        let mut j: usize = 0;
        while j < file.references.len()
            invariant
                j <= file.references@.len(),
                file@.references.len() == fm.references.len(),
                file@.path == fm.path,
                file@.header == fm.header,
                file@.header_location == fm.header_location,
                file@.persisted == fm.persisted,
                forall|k: int|
                    0 <= k < j ==> file@.references[k] == mark_persisted(
                        #[trigger] fm.references[k],
                    ),
                forall|k: int|
                    j <= k < fm.references.len() ==> file@.references[k]
                        == #[trigger] fm.references[k],
                repositories.spec_references().contents() == upsert_refs_model(
                    refs0,
                    fm.references.take(j as int),
                ),
                repositories.spec_files().contents() == files0,
            decreases file.references@.len() - j,
        {
            match file.references[j].upsert(repositories.references()) {
                Ok(()) => {},
                Err(e) => {
                    return Err(e);
                },
            }
            proof {
                assert(fm.references.take(j as int + 1).drop_last() =~= fm.references.take(
                    j as int,
                ));
                assert(fm.references.take(j as int + 1).last() == fm.references[j as int]);
            }
            j = j + 1;
        }
        proof {
            assert(fm.references.take(fm.references.len() as int) =~= fm.references);
            assert(file@.references =~= fm.references.map_values(
                |x: ReferenceModel| mark_persisted(x),
            ));
            assert(file@ == mark_refs_persisted(fm));
        }
        match file.create(repositories.files()) {
            Ok(()) => {},
            Err(e) => {
                proof {
                    if e is InvalidRecord {
                        assert(repositories.spec_files().contents().contains_key(file@.header));
                        assert(crate::codec::sdec_file_full(
                            repositories.spec_files().contents()[file@.header],
                        ) is None);
                    }
                }
                return Err(e);
            },
        }
        i = i + 1;
    }
    proof {
        assert(dv.skip(documents@.len() as int) =~= Seq::<(Seq<char>, Seq<char>)>::empty());
    }
    Ok(())
}

/// Rebuild the whole index from the given documents, each a path and its
/// content, in the order the walk produced them. Buffered writes are
/// persisted whether the rebuild succeeded or aborted, and a failure to
/// persist outranks the rebuild's own failure.
pub fn reindex(repositories: &mut RepositoryBuilder, documents: &Vec<(String, String)>) -> (r:
    Result<(), GrimoireError>)
    requires
        forall|i: int|
            0 <= i < documents@.len() ==> (#[trigger] documents@[i]).1@.len() + 1 < u32::MAX
                as nat,
    ensures
        r is Ok ==> (reindex_docs(empty_contents(), empty_contents(), docs_view(documents@))
            matches Ok(pair) && final(repositories).spec_files().contents() == pair.0
            && final(repositories).spec_references().contents() == pair.1),
        r matches Err(GrimoireError::HeaderNotFound { path }) ==> (reindex_docs(
            empty_contents(),
            empty_contents(),
            docs_view(documents@),
        ) matches Err(RebuildFault::MissingHeader { path: p, files, refs }) && path@ == p
            && final(repositories).spec_files().contents() == files
            && final(repositories).spec_references().contents() == refs),
        r matches Err(GrimoireError::DuplicateHeader { new_path, header, .. }) ==> (reindex_docs(
            empty_contents(),
            empty_contents(),
            docs_view(documents@),
        ) matches Err(RebuildFault::DuplicateTitle { path: p, header: h, files, refs })
            && new_path@ == p && header@ == h
            && final(repositories).spec_files().contents() == files
            && final(repositories).spec_references().contents() == refs),
        r matches Err(GrimoireError::InvalidRecord { .. }) ==> exists|k: Seq<char>|
            final(repositories).spec_files().contents().contains_key(k) && (
            #[trigger] crate::codec::sdec_file_full(
                final(repositories).spec_files().contents()[k],
            )) is None,
        r is Err ==> (r matches Err(GrimoireError::HeaderNotFound { .. })
            || r matches Err(GrimoireError::DuplicateHeader { .. })
            || r matches Err(GrimoireError::InvalidRecord { .. })
            || r matches Err(GrimoireError::Store { .. })),
{
    let result = reindex_pass(repositories, documents);
    match repositories.flush() {
        Ok(()) => result,
        Err(e) => Err(e),
    }
}

} // verus!
