//! The reference resolver: answer one cursor-position query against a fresh
//! parse of the source document and the current index.

use vstd::prelude::*;

use crate::codec::sdec_file_full;
use crate::errors::GrimoireError;
use crate::file::{parse_spec, File, FileModel};
use crate::files_repository::{files_match, FilesRepository};
use crate::location::{loc_contains, LocModel, Location, Position};
use crate::reference::{Reference, ReferenceModel};

verus! {

/// One answer of a resolve call: a document and the span of its title.
#[derive(Debug)]
pub struct ResolvedLocation {
    pub path: String,
    pub location: Location,
}

/// Mathematical model of a [`ResolvedLocation`].
pub struct ResolvedLocationModel {
    pub path: Seq<char>,
    pub location: LocModel,
}

impl View for ResolvedLocation {
    type V = ResolvedLocationModel;

    open spec fn view(&self) -> ResolvedLocationModel {
        ResolvedLocationModel { path: self.path@, location: self.location@ }
    }
}

/// The occurrences of a run whose recorded span holds the cursor.
pub open spec fn matching_refs(rs: Seq<ReferenceModel>, line: int, character: int) -> Seq<
    ReferenceModel,
> {
    rs.filter(|r: ReferenceModel| loc_contains(r.header_location, line, character))
}

/// The references of a parsed document whose recorded span holds the
/// cursor.
pub open spec fn cursor_matches(fm: FileModel, line: int, character: int) -> Seq<ReferenceModel> {
    matching_refs(fm.references, line, character)
}

/// How a fallback listing corresponds to the index: one answer per indexed
/// document, carrying its path and its title's span.
pub open spec fn fallback_match(
    m: Map<Seq<char>, Seq<u8>>,
    ls: Seq<ResolvedLocationModel>,
) -> bool {
    exists|fs: Seq<File>|
        {
            &&& files_match(m, fs)
            &&& ls.len() == fs.len()
            &&& forall|i: int|
                0 <= i < fs.len() ==> ls[i].path == (#[trigger] fs[i])@.path && ls[i].location
                    == fs[i]@.header_location
        }
}

/// Resolve a cursor position inside one document against the index.
///
/// The document is parsed afresh. A cursor on exactly one link answers with
/// the linked document's title span, or with nothing when the link dangles.
/// A cursor on no link at all answers with the title span of every indexed
/// document — the deliberate fallback. A cursor on more than one link is a
/// data-integrity failure.
pub fn find_markdown_references(
    repository: &FilesRepository,
    path: &str,
    content: &str,
    position: &Position,
) -> (r: Result<Vec<ResolvedLocation>, GrimoireError>)
    requires
        content@.len() + 1 < u32::MAX as nat,
    ensures
        parse_spec(path@, content@) is None ==> (r matches Err(GrimoireError::HeaderNotFound {
            path: p }) && p@ == path@),
        parse_spec(path@, content@) matches Some(fm) ==> ({
            let ms = cursor_matches(fm, position.line as int, position.character as int);
            &&& (ms.len() > 1 ==> (r matches Err(GrimoireError::OverlappingReferences {
                path: p }) && p@ == path@))
            &&& (ms.len() == 0 ==> (r matches Ok(ls) ==> fallback_match(
                repository.contents(),
                ls@.map_values(|x: ResolvedLocation| x@),
            )))
            &&& (ms.len() == 1 ==> (r matches Ok(ls) ==> (if !repository.contents().contains_key(
                ms[0].header,
            ) {
                ls@.len() == 0
            } else {
                sdec_file_full(repository.contents()[ms[0].header]) matches Some(found)
                    && ls@.len() == 1 && ls@[0]@.path == found.path && ls@[0]@.location
                    == found.header_location
            })))
        }),
        r matches Err(GrimoireError::HeaderNotFound { .. }) ==> parse_spec(path@, content@)
            is None,
        r matches Err(GrimoireError::OverlappingReferences { .. }) ==> (parse_spec(path@, content@)
            matches Some(fm) && cursor_matches(
            fm,
            position.line as int,
            position.character as int,
        ).len() > 1),
        r matches Err(GrimoireError::InvalidRecord { .. }) ==> exists|k: Seq<char>|
            repository.contents().contains_key(k) && (#[trigger] sdec_file_full(
                repository.contents()[k],
            )) is None,
        r is Err ==> (r matches Err(GrimoireError::HeaderNotFound { .. }) || r matches Err(
            GrimoireError::OverlappingReferences { .. },
        ) || r matches Err(GrimoireError::InvalidRecord { .. }) || r matches Err(
            GrimoireError::Store { .. },
        )),
{
    let ghost line = position.line as int;
    let ghost character = position.character as int;
    let source_file = match File::parse_from_content(path, content) {
        Ok(f) => f,
        Err(e) => {
            return Err(e);
        },
    };
    let ghost fm = parse_spec(path@, content@).unwrap();
    let mut matches_found: Vec<Reference> = Vec::new();
    let mut i: usize = 0;
    proof {
        reveal(Seq::filter);
        assert(matching_refs(fm.references.take(0), line, character)
            =~= Seq::<ReferenceModel>::empty());
        assert(matches_found@.map_values(|x: Reference| x@)
            =~= Seq::<ReferenceModel>::empty());
    }
    while i < source_file.references.len()
        invariant
            i <= source_file.references@.len(),
            source_file@ == fm,
            line == position.line as int,
            character == position.character as int,
            matches_found@.map_values(|x: Reference| x@) == matching_refs(
                fm.references.take(i as int),
                line,
                character,
            ),
        decreases source_file.references@.len() - i,
    {
        let reference = &source_file.references[i];
        proof {
            reveal(Seq::filter);
            assert(fm.references[i as int] == reference@);
            assert(fm.references.take(i as int + 1).drop_last() =~= fm.references.take(i as int));
            assert(fm.references.take(i as int + 1).last() == fm.references[i as int]);
        }
        if reference.location().contains(position) {
            let ghost before = matches_found@;
            matches_found.push(reference.clone());
            proof {
                reveal(Seq::filter);
                assert(loc_contains(reference@.header_location, line, character));
                before.lemma_push_map_commute(|x: Reference| x@, matches_found@.last());
                assert(matches_found@.map_values(|x: Reference| x@) =~= before.map_values(
                    |x: Reference| x@,
                ).push(reference@));
                assert(matches_found@.map_values(|x: Reference| x@) == matching_refs(
                    fm.references.take(i as int + 1),
                    line,
                    character,
                ));
            }
        } else {
            proof {
                reveal(Seq::filter);
                assert(!loc_contains(reference@.header_location, line, character));
                assert(matches_found@.map_values(|x: Reference| x@) == matching_refs(
                    fm.references.take(i as int + 1),
                    line,
                    character,
                ));
            }
        }
        i = i + 1;
    }
    proof {
        assert(fm.references.take(fm.references.len() as int) =~= fm.references);
    }
    if matches_found.len() > 1 {
        return Err(crate::errors::invalid_overlapping_references_in_file(path));
    }
    if matches_found.len() == 0 {
        let files = match repository.find_all() {
            Ok(fs) => fs,
            Err(e) => {
                return Err(e);
            },
        };
        let mut locations: Vec<ResolvedLocation> = Vec::new();
        let mut j: usize = 0;
        proof {
            assert(locations@.map_values(|x: ResolvedLocation| x@).len() == 0);
        }
        while j < files.len()
            invariant
                j <= files@.len(),
                files_match(repository.contents(), files@),
                locations@.len() == j,
                forall|k: int|
                    0 <= k < j ==> (#[trigger] locations@[k])@.path == files@[k]@.path
                        && locations@[k]@.location == files@[k]@.header_location,
            decreases files@.len() - j,
        {
            let f = &files[j];
            let p = match f.serializable_path() {
                Ok(p) => p,
                Err(e) => {
                    return Err(e);
                },
            };
            locations.push(ResolvedLocation { path: p, location: *f.header_location() });
            j = j + 1;
        }
        proof {
            let ls = locations@.map_values(|x: ResolvedLocation| x@);
            assert(fallback_match(repository.contents(), ls)) by {
                assert(files_match(repository.contents(), files@));
                assert(ls.len() == files@.len());
                assert(forall|k: int|
                    0 <= k < files@.len() ==> ls[k].path == (#[trigger] files@[k])@.path
                        && ls[k].location == files@[k]@.header_location);
            }
        }
        return Ok(locations);
    }
    let reference = &matches_found[0];
    let title = reference.header();
    proof {
        assert(matches_found@.map_values(|x: Reference| x@)[0] == reference@);
        assert(cursor_matches(fm, line, character)[0] == reference@);
    }
    let found = match repository.find(title.as_str()) {
        Ok(x) => x,
        Err(e) => {
            return Err(e);
        },
    };
    match found {
        None => Ok(Vec::new()),
        Some(file) => {
            let p = match file.serializable_path() {
                Ok(p) => p,
                Err(e) => {
                    return Err(e);
                },
            };
            let mut locations: Vec<ResolvedLocation> = Vec::new();
            locations.push(ResolvedLocation { path: p, location: *file.header_location() });
            Ok(locations)
        },
    }
}

} // verus!
