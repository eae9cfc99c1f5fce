//! A parsed document: its title line and every link occurrence found in it.

use vstd::prelude::*;
use vstd::string::*;

use crate::codec::{enc_file, file_encodable, sdec_file_full};
use crate::errors::GrimoireError;
use crate::files_repository::FilesRepository;
use crate::header_parser::{hp_output, HeaderParser, PayloadModel};
use crate::location::{LocModel, Location};
use crate::reference::{Reference, ReferenceModel};
use crate::reference_parser::{rp_run, ReferenceParser, ReferenceParserPayload};

verus! {

/// Whether the character at `i` is a carriage return that a following
/// newline will swallow: the stream is fed line by line, so `"\r\n"`
/// collapses to a single newline.
pub open spec fn skip_cr(s: Seq<char>, i: int) -> bool {
    &&& s[i] == '\r'
    &&& i + 1 < s.len()
    &&& s[i + 1] == '\n'
}

/// The characters fed to the recognizers for the first `i` characters of the
/// content: everything except carriage returns swallowed by a newline.
pub open spec fn fed_prefix(s: Seq<char>, i: int) -> Seq<char>
    decreases i,
{
    if i <= 0 {
        Seq::empty()
    } else if skip_cr(s, i - 1) {
        fed_prefix(s, i - 1)
    } else {
        fed_prefix(s, i - 1).push(s[i - 1])
    }
}

/// The whole character stream a document's content drives through both
/// recognizers: the content with `"\r\n"` collapsed, and a synthetic final
/// newline so the last line is properly terminated.
pub open spec fn doc_stream(s: Seq<char>) -> Seq<char> {
    let f = fed_prefix(s, s.len() as int);
    if f.len() == 0 || f.last() == '\n' {
        f
    } else {
        f.push('\n')
    }
}

/// At most one character is fed per character of content.
pub proof fn lemma_fed_prefix_len(s: Seq<char>, i: int)
    requires
        0 <= i,
    ensures
        fed_prefix(s, i).len() <= i,
    decreases i,
{
    if i > 0 {
        lemma_fed_prefix_len(s, i - 1);
    }
}

/// One link occurrence wrapped into a reference record owned by `path`.
pub open spec fn payload_to_reference(path: Seq<char>, q: PayloadModel) -> ReferenceModel {
    ReferenceModel { path: path, header: q.header, header_location: q.location, persisted: false }
}

/// What parsing a document yields: `None` when no title line is recognized;
/// otherwise the trimmed title with its span, and one reference per link
/// occurrence, in document order, all owned by the document's path.
pub open spec fn parse_spec(path: Seq<char>, content: Seq<char>) -> Option<FileModel> {
    let stream = doc_stream(content);
    match hp_output(stream) {
        None => None,
        Some(p) => Some(
            FileModel {
                path: path,
                header: p.header,
                header_location: p.location,
                references: rp_run(stream).references.map_values(
                    |q: PayloadModel| payload_to_reference(path, q),
                ),
                persisted: false,
            },
        ),
    }
}

/// Mathematical model of a [`File`].
pub struct FileModel {
    pub path: Seq<char>,
    pub header: Seq<char>,
    pub header_location: LocModel,
    pub references: Seq<ReferenceModel>,
    pub persisted: bool,
}

/// A parsed document record: the path it was read from, its title and the
/// title's span, and every link occurrence in document order.
#[derive(Debug)]
pub struct File {
    pub path: String,
    pub header: String,
    pub header_location: Location,
    pub references: Vec<Reference>,
    pub persisted: bool,
}

impl View for File {
    type V = FileModel;

    open spec fn view(&self) -> FileModel {
        FileModel {
            path: self.path@,
            header: self.header@,
            header_location: self.header_location@,
            references: self.references@.map_values(|r: Reference| r@),
            persisted: self.persisted,
        }
    }
}

impl File {
    /// Drive the document's content through both recognizers and assemble
    /// the record, or fail when no title line was recognized.
    pub fn parse_from_content(path: &str, content: &str) -> (r: Result<File, GrimoireError>)
        requires
            content@.len() + 1 < u32::MAX as nat,
        ensures
            r matches Ok(f) ==> parse_spec(path@, content@) == Some(f@),
            r matches Err(e) ==> e matches GrimoireError::HeaderNotFound { path: p } && p@
                == path@,
            (r is Ok) == (parse_spec(path@, content@) is Some),
    {
        let ghost s = content@;
        let mut header_parser = HeaderParser::new();
        let mut reference_parser = ReferenceParser::new();
        let n = content.unicode_len();
        let mut i: usize = 0;
        let mut fed_any = false;
        let mut last_was_newline = false;
        while i < n
            invariant
                i <= n,
                n == s.len(),
                s == content@,
                s.len() + 1 < u32::MAX as nat,
                header_parser.wf(),
                reference_parser.wf(),
                header_parser.consumed() == fed_prefix(s, i as int),
                reference_parser.consumed() == fed_prefix(s, i as int),
                fed_any == (fed_prefix(s, i as int).len() > 0),
                last_was_newline == (fed_prefix(s, i as int).len() > 0 && fed_prefix(
                    s,
                    i as int,
                ).last() == '\n'),
            decreases n - i,
        {
            proof {
                lemma_fed_prefix_len(s, i as int);
            }
            let c = content.get_char(i);
            if c == '\r' && i + 1 < n && content.get_char(i + 1) == '\n' {
                proof {
                    assert(fed_prefix(s, i as int + 1) == fed_prefix(s, i as int));
                }
            } else {
                header_parser.next(c);
                reference_parser.next(c);
                fed_any = true;
                last_was_newline = c == '\n';
                proof {
                    assert(fed_prefix(s, i as int + 1) == fed_prefix(s, i as int).push(c));
                }
            }
            i = i + 1;
        }
        proof {
            lemma_fed_prefix_len(s, n as int);
        }
        if fed_any && !last_was_newline {
            header_parser.next('\n');
            reference_parser.next('\n');
        }
        proof {
            assert(header_parser.consumed() == doc_stream(s));
            assert(reference_parser.consumed() == doc_stream(s));
        }
        let payload = match header_parser.call() {
            Some(p) => p,
            None => {
                return Err(crate::errors::markdown_header_not_found_during_parsing(path));
            },
        };
        let ghost ref_models = rp_run(doc_stream(s)).references;
        let ref_payloads = reference_parser.call();
        let mut references: Vec<Reference> = Vec::new();
        let mut j: usize = 0;
        proof {
            assert(references@.map_values(|r: Reference| r@) =~= ref_models.take(0).map_values(
                |q: PayloadModel| payload_to_reference(path@, q),
            ));
        }
        while j < ref_payloads.len()
            invariant
                j <= ref_payloads.len(),
                references@.len() == j,
                ref_payloads@.map_values(|p: ReferenceParserPayload| p@) == ref_models,
                references@.map_values(|r: Reference| r@) == ref_models.take(j as int).map_values(
                    |q: PayloadModel| payload_to_reference(path@, q),
                ),
            decreases ref_payloads.len() - j,
        {
            let p = &ref_payloads[j];
            let ghost olds = references@;
            references.push(Reference::new(String::from_str(path), p.header.clone(), p.location));
            proof {
                let ghost x = references@.last();
                assert(ref_payloads@.map_values(|y: ReferenceParserPayload| y@)[j as int]
                    == ref_models[j as int]);
                assert(p@ == ref_models[j as int]);
                assert(references@ == olds.push(x));
                olds.lemma_push_map_commute(|r: Reference| r@, x);
                ref_models.lemma_map_take_succ(
                    |q: PayloadModel| payload_to_reference(path@, q),
                    j as int,
                );
                assert(x@ == payload_to_reference(path@, ref_models[j as int]));
                assert(references@.map_values(|r: Reference| r@) =~= ref_models.take(
                    j as int + 1,
                ).map_values(|q: PayloadModel| payload_to_reference(path@, q)));
            }
            j = j + 1;
        }
        proof {
            assert(ref_models.take(ref_payloads@.len() as int) =~= ref_models);
            assert(references@.map_values(|r: Reference| r@) =~= rp_run(
                doc_stream(s),
            ).references.map_values(|q: PayloadModel| payload_to_reference(path@, q)));
        }
        let parsed = File {
            path: String::from_str(path),
            header: payload.header,
            header_location: payload.location,
            references,
            persisted: false,
        };
        Ok(parsed)
    }

    /// The path this document was read from.
    pub fn path(&self) -> (r: &String)
        ensures
            r@ == self@.path,
    {
        &self.path
    }

    /// The path as the text that the index stores.
    pub fn serializable_path(&self) -> (r: Result<String, GrimoireError>)
        ensures
            r matches Ok(p) && p@ == self@.path,
    {
        Ok(self.path.clone())
    }

    /// The document's title.
    pub fn header(&self) -> (r: String)
        ensures
            r@ == self@.header,
    {
        self.header.clone()
    }

    /// The span of the title line, from its `#` marker to its last character.
    pub fn header_location(&self) -> (r: &Location)
        ensures
            r@ == self@.header_location,
    {
        &self.header_location
    }

    /// Every link occurrence, in document order.
    pub fn references(&self) -> (r: &Vec<Reference>)
        ensures
            r@.map_values(|x: Reference| x@) == self@.references,
    {
        &self.references
    }

    /// Mutable access to the link occurrences.
    pub fn references_mut(&mut self) -> (r: &mut Vec<Reference>)
        ensures
            r@ == old(self).references@,
            final(self).references == *final(r),
            final(self).path == old(self).path,
            final(self).header == old(self).header,
            final(self).header_location == old(self).header_location,
            final(self).persisted == old(self).persisted,
    {
        &mut self.references
    }

    /// Write this record into the index, unless its title is already
    /// claimed, and mark it persisted.
    pub fn create(&mut self, repository: &mut FilesRepository) -> (r: Result<(), GrimoireError>)
        ensures
            r is Ok ==> !old(repository).contents().contains_key(old(self)@.header)
                && final(repository).contents()
                == old(repository).contents().insert(old(self)@.header, enc_file(old(self)@))
                && file_encodable(old(self)@) && final(self)@ == (FileModel {
                persisted: true,
                ..old(self)@
            }),
            r is Err ==> *final(self) == *old(self),
            r matches Err(GrimoireError::DuplicateHeader { old_path, new_path, header })
                ==> old(repository).contents().contains_key(old(self)@.header)
                && final(repository).contents() == old(repository).contents()
                && new_path@ == old(self)@.path && header@ == old(self)@.header
                && (sdec_file_full(old(repository).contents()[old(self)@.header]) matches Some(fm)
                && fm.path == old_path@),
            r matches Err(GrimoireError::InvalidRecord { .. })
                ==> old(repository).contents().contains_key(old(self)@.header)
                && sdec_file_full(old(repository).contents()[old(self)@.header]) is None
                && final(repository).contents() == old(repository).contents(),
            r is Err ==> (r matches Err(GrimoireError::DuplicateHeader { .. })
                || r matches Err(GrimoireError::InvalidRecord { .. })
                || r matches Err(GrimoireError::Store { .. })),
    {
        match repository.create_file(self) {
            Ok(()) => {
                self.persisted = true;
                Ok(())
            },
            Err(e) => Err(e),
        }
    }

    /// Whether this record has been written into the index.
    pub fn persisted(&self) -> (r: bool)
        ensures
            r == self@.persisted,
    {
        self.persisted
    }
}

} // verus!
