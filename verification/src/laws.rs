//! The library's general guarantees, stated and proved against the public
//! contracts: what the title scanner recognizes, and how the index behaves
//! across calls.

use vstd::prelude::*;

use crate::codec::{enc_file, enc_reference, file_encodable, lemma_dec_enc_file, sdec_file_full};
use crate::file::FileModel;
use crate::header_parser::{hp_run, trim_end_spec, HeaderStateModel};
use crate::reference::ReferenceModel;
use crate::reference_parser::{rp_run, ReferenceStateModel};

verus! {

// ------------------------------------------------------------------
// The title scanner's language.
// ------------------------------------------------------------------

/// Whether position `i` starts a line of `s`.
pub open spec fn is_line_start(s: Seq<char>, i: int) -> bool {
    i == 0 || s[i - 1] == '\n'
}

/// A stretch of characters with no newline in it.
pub open spec fn no_newline(l: Seq<char>) -> bool {
    forall|k: int| 0 <= k < l.len() ==> l[k] != '\n'
}

/// The phase a single line drives the title scanner through, from `Idle`,
/// ignoring newlines (the line has none). A capture carries the text
/// gathered so far.
pub enum LineScanPhase {
    Idle,
    Marked,
    Awaiting,
    Capturing(Seq<char>),
}

/// Scanning one line: a `#` arms the marker, a following space confirms it,
/// further spaces are skipped, and any other character starts the capture.
/// A confirmed capture never leaves `Capturing` within its line and gathers
/// every further character.
pub open spec fn line_scan(l: Seq<char>) -> LineScanPhase
    decreases l.len(),
{
    if l.len() == 0 {
        LineScanPhase::Idle
    } else {
        match line_scan(l.drop_last()) {
            LineScanPhase::Idle => if l.last() == '#' {
                LineScanPhase::Marked
            } else {
                LineScanPhase::Idle
            },
            LineScanPhase::Marked => if l.last() == ' ' {
                LineScanPhase::Awaiting
            } else {
                LineScanPhase::Idle
            },
            LineScanPhase::Awaiting => if l.last() == ' ' {
                LineScanPhase::Awaiting
            } else {
                LineScanPhase::Capturing(seq![l.last()])
            },
            LineScanPhase::Capturing(w) => LineScanPhase::Capturing(w.push(l.last())),
        }
    }
}

/// Whether one line, scanned on its own, ends in a capture.
pub open spec fn line_matches(l: Seq<char>) -> bool {
    line_scan(l) is Capturing
}

/// A terminated line of the stream that the scanner captures: a line start
/// `i`, a newline at `j`, nothing but that line between them, and a
/// matching scan of the line.
pub open spec fn header_witness(s: Seq<char>, i: int, j: int) -> bool {
    &&& 0 <= i <= j < s.len()
    &&& s[j] == '\n'
    &&& is_line_start(s, i)
    &&& no_newline(s.subrange(i, j))
    &&& line_matches(s.subrange(i, j))
}

/// Whether the stream holds a terminated line that the scanner captures.
pub open spec fn stream_has_header(s: Seq<char>) -> bool {
    exists|i: int, j: int| header_witness(s, i, j)
}

/// The earliest such line: no captured terminated line ends before it.
pub open spec fn first_header_witness(s: Seq<char>, i: int, j: int) -> bool {
    &&& header_witness(s, i, j)
    &&& forall|i2: int, j2: int| header_witness(s, i2, j2) ==> j <= j2
}

/// Where the current (unterminated) line of the stream begins.
pub open spec fn cur_line_start(s: Seq<char>) -> int
    decreases s.len(),
{
    if s.len() == 0 {
        0
    } else if s.last() == '\n' {
        s.len() as int
    } else {
        cur_line_start(s.drop_last())
    }
}

/// The current (unterminated) line of the stream.
pub open spec fn cur_line(s: Seq<char>) -> Seq<char> {
    s.subrange(cur_line_start(s), s.len() as int)
}

/// The current line begins at a line start and holds no newline.
proof fn lemma_cur_line_props(s: Seq<char>)
    ensures
        0 <= cur_line_start(s) <= s.len(),
        is_line_start(s, cur_line_start(s)),
        no_newline(cur_line(s)),
    decreases s.len(),
{
    if s.len() > 0 && s.last() != '\n' {
        lemma_cur_line_props(s.drop_last());
        assert(cur_line(s.drop_last()) =~= s.subrange(cur_line_start(s), s.len() - 1));
        assert forall|k: int| 0 <= k < cur_line(s).len() implies cur_line(s)[k] != '\n' by {
            if k < cur_line(s).len() - 1 {
                assert(cur_line(s.drop_last())[k] == cur_line(s)[k]);
            } else {
                assert(cur_line(s)[k] == s.last());
            }
        }
    }
}

/// Only one position can start a newline-free suffix of the stream: the
/// current line's start.
proof fn lemma_cur_line_unique(s: Seq<char>, i: int)
    requires
        0 <= i <= s.len(),
        is_line_start(s, i),
        no_newline(s.subrange(i, s.len() as int)),
    ensures
        i == cur_line_start(s),
    decreases s.len(),
{
    if s.len() == 0 {
    } else if s.last() == '\n' {
        if i < s.len() {
            assert(s.subrange(i, s.len() as int)[s.len() - 1 - i] == s.last());
        }
    } else {
        if i == s.len() {
            assert(s[i - 1] == '\n');
            assert(s.subrange(i - 1, s.len() as int)[0] == '\n');
            assert(false) by {
                assert(s.last() != '\n');
                assert(i - 1 == s.len() - 1);
            }
        } else {
            assert(is_line_start(s.drop_last(), i));
            assert(s.drop_last().subrange(i, s.len() - 1) =~= s.subrange(i, s.len() - 1));
            assert forall|k: int|
                0 <= k < s.drop_last().subrange(i, s.len() - 1).len() implies #[trigger] s.drop_last().subrange(
                i,
                s.len() - 1,
            )[k] != '\n' by {
                assert(s.subrange(i, s.len() as int)[k] != '\n');
            }
            lemma_cur_line_unique(s.drop_last(), i);
        }
    }
}

/// A captured line keeps being one as the stream grows.
proof fn lemma_witness_extend(s: Seq<char>, c: char, i: int, j: int)
    requires
        header_witness(s, i, j),
    ensures
        header_witness(s.push(c), i, j),
{
    let t = s.push(c);
    assert(t.subrange(i, j) =~= s.subrange(i, j));
    assert(t[j] == '\n');
    assert(is_line_start(t, i));
}

/// A captured line that ends strictly inside the shorter stream was already
/// one there.
proof fn lemma_witness_restrict(s: Seq<char>, c: char, i: int, j: int)
    requires
        header_witness(s.push(c), i, j),
        j < s.len(),
    ensures
        header_witness(s, i, j),
{
    let t = s.push(c);
    assert(s.subrange(i, j) =~= t.subrange(i, j));
    assert(is_line_start(s, i));
}

/// A new captured line can only appear when the pushed character is a
/// newline terminating a matching current line.
proof fn lemma_new_witness(s: Seq<char>, c: char)
    requires
        stream_has_header(s.push(c)),
        !stream_has_header(s),
    ensures
        c == '\n',
        line_matches(cur_line(s)),
{
    let t = s.push(c);
    let (i, j) = choose|i: int, j: int| header_witness(t, i, j);
    if j < s.len() {
        lemma_witness_restrict(s, c, i, j);
        assert(false);
    } else {
        assert(j == s.len());
        assert(c == '\n');
        assert(s.subrange(i, j) =~= t.subrange(i, j));
        assert(is_line_start(s, i));
        assert(s.subrange(i, s.len() as int) == s.subrange(i, j));
        lemma_cur_line_unique(s, i);
        assert(cur_line(s) == s.subrange(i, j));
    }
}

/// Whether a scanner state and a line phase name the same point of
/// progress, captured text included.
pub open spec fn phase_corresponds(st: HeaderStateModel, ph: LineScanPhase) -> bool {
    match st {
        HeaderStateModel::Idle => ph == LineScanPhase::Idle,
        HeaderStateModel::SawMarker => ph == LineScanPhase::Marked,
        HeaderStateModel::AwaitingContent => ph == LineScanPhase::Awaiting,
        HeaderStateModel::Capturing(p) => ph == LineScanPhase::Capturing(p.header),
        HeaderStateModel::Done(_) => false,
    }
}

/// The scanner's state after any stream: `Done` exactly when the stream
/// holds a terminated matching line, holding the earliest such line's
/// capture; before that, in step with the scan of the current line.
proof fn lemma_header_scan_invariant(s: Seq<char>)
    ensures
        (hp_run(s).state is Done) <==> stream_has_header(s),
        !stream_has_header(s) ==> phase_corresponds(hp_run(s).state, line_scan(cur_line(s))),
        hp_run(s).state matches HeaderStateModel::Done(p) ==> exists|i: int, j: int|
            first_header_witness(s, i, j) && line_scan(s.subrange(i, j))
                == LineScanPhase::Capturing(p.header),
    decreases s.len(),
{
    if s.len() == 0 {
        assert(!stream_has_header(s));
        assert(cur_line(s) =~= Seq::<char>::empty());
    } else {
        let s0 = s.drop_last();
        let c = s.last();
        lemma_header_scan_invariant(s0);
        lemma_cur_line_props(s0);
        assert(s == s0.push(c));
        match hp_run(s0).state {
            HeaderStateModel::Done(p) => {
                let (i, j) = choose|i: int, j: int|
                    first_header_witness(s0, i, j) && line_scan(s0.subrange(i, j))
                        == LineScanPhase::Capturing(p.header);
                lemma_witness_extend(s0, c, i, j);
                assert(s.subrange(i, j) =~= s0.subrange(i, j));
                assert forall|i2: int, j2: int| header_witness(s, i2, j2) implies j <= j2 by {
                    if j2 < s0.len() {
                        lemma_witness_restrict(s0, c, i2, j2);
                    }
                }
                assert(first_header_witness(s, i, j));
            },
            _ => {
                if c == '\n' {
                    assert(cur_line(s) =~= Seq::<char>::empty());
                    match hp_run(s0).state {
                        HeaderStateModel::Capturing(p) => {
                            let i = cur_line_start(s0);
                            let j = s0.len() as int;
                            assert(s.subrange(i, j) =~= cur_line(s0));
                            assert(s[j] == '\n');
                            assert(is_line_start(s, i));
                            assert(header_witness(s, i, j));
                            assert forall|i2: int, j2: int|
                                header_witness(s, i2, j2) implies j <= j2 by {
                                if j2 < s0.len() {
                                    lemma_witness_restrict(s0, c, i2, j2);
                                }
                            }
                            assert(first_header_witness(s, i, j));
                            assert(line_scan(s.subrange(i, j)) == LineScanPhase::Capturing(
                                p.header,
                            ));
                        },
                        _ => {
                            assert(!stream_has_header(s)) by {
                                if stream_has_header(s) {
                                    lemma_new_witness(s0, c);
                                }
                            }
                        },
                    }
                } else {
                    assert(!stream_has_header(s)) by {
                        if stream_has_header(s) {
                            lemma_new_witness(s0, c);
                        }
                    }
                    assert(cur_line_start(s) == cur_line_start(s0));
                    assert(cur_line(s) =~= cur_line(s0).push(c));
                    assert(cur_line(s).drop_last() =~= cur_line(s0));
                }
            },
        }
    }
}

/// The title scanner reaches `Done` on a stream exactly when the stream
/// holds a terminated line that scans to a capture; every later line is
/// ignored, since `Done` latches.
pub proof fn lemma_header_recognizer_language(s: Seq<char>)
    ensures
        (hp_run(s).state is Done) <==> stream_has_header(s),
{
    lemma_header_scan_invariant(s);
}

/// The first captured terminated line wins: the scanner's result is that
/// line's capture with trailing whitespace trimmed, and no later line moves
/// it.
pub proof fn lemma_first_header_line_wins(s: Seq<char>)
    ensures
        crate::header_parser::hp_output(s) matches Some(q) ==> exists|i: int, j: int|
            first_header_witness(s, i, j) && (line_scan(s.subrange(i, j)) matches
                LineScanPhase::Capturing(w) && q.header == trim_end_spec(w)),
{
    lemma_header_scan_invariant(s);
    if crate::header_parser::hp_output(s) is Some {
        let p = hp_run(s).state->Done_0;
        let (i, j) = choose|i: int, j: int|
            first_header_witness(s, i, j) && line_scan(s.subrange(i, j))
                == LineScanPhase::Capturing(p.header);
        assert(first_header_witness(s, i, j) && (line_scan(s.subrange(i, j)) matches
            LineScanPhase::Capturing(w) && crate::header_parser::hp_output(s)->Some_0.header
            == trim_end_spec(w)));
    }
}

/// Parsing a document finds a title exactly when the fed character stream
/// holds a terminated line that the title scanner captures.
pub proof fn lemma_parse_finds_header(path: Seq<char>, content: Seq<char>)
    ensures
        (crate::file::parse_spec(path, content) is Some) <==> stream_has_header(
            crate::file::doc_stream(content),
        ),
{
    lemma_header_recognizer_language(crate::file::doc_stream(content));
}

/// A line whose only `#`, if any, is its first character.
pub open spec fn hash_only_at_start(l: Seq<char>) -> bool {
    forall|k: int| 1 <= k < l.len() ==> l[k] != '#'
}

/// A title line as a reader would describe it: a `#`, a space, and at least
/// one non-space character before the line's end.
pub open spec fn line_is_header(l: Seq<char>) -> bool {
    l.len() >= 2 && l[0] == '#' && l[1] == ' ' && exists|k: int| 2 <= k < l.len() && l[k] != ' '
}

/// The capture of a title line read plainly: everything from the first
/// non-space character after the `# ` marker to the line's end.
pub open spec fn line_header_payload(l: Seq<char>, k: int) -> bool {
    &&& 2 <= k < l.len()
    &&& (forall|m: int| 2 <= m < k ==> l[m] == ' ')
    &&& l[k] != ' '
}

/// On a line whose `#` can only be its first character, each scan phase has
/// a plain description: the scan captures exactly the lines that read as
/// title lines, and the capture is the text from the first non-space
/// character after the marker.
proof fn lemma_line_scan_characterized(l: Seq<char>)
    requires
        no_newline(l),
        hash_only_at_start(l),
    ensures
        line_scan(l) == LineScanPhase::Marked <==> (l.len() == 1 && l[0] == '#'),
        line_scan(l) == LineScanPhase::Awaiting <==> (l.len() >= 2 && l[0] == '#' && l[1] == ' '
            && forall|k: int| 2 <= k < l.len() ==> l[k] == ' '),
        (line_scan(l) is Capturing) <==> line_is_header(l),
        line_scan(l) matches LineScanPhase::Capturing(w) ==> exists|k: int|
            line_header_payload(l, k) && w == l.skip(k),
    decreases l.len(),
{
    if l.len() > 0 {
        let l0 = l.drop_last();
        assert(no_newline(l0)) by {
            assert(forall|k: int| 0 <= k < l0.len() ==> l0[k] == l[k]);
        }
        assert(hash_only_at_start(l0)) by {
            assert(forall|k: int| 1 <= k < l0.len() ==> l0[k] == l[k]);
        }
        lemma_line_scan_characterized(l0);
        assert(forall|k: int| 0 <= k < l0.len() ==> l0[k] == l[k]);
        if l.len() >= 2 && l[0] == '#' && l[1] == ' ' && l.last() != ' ' {
            assert(line_is_header(l)) by {
                assert(l[l.len() - 1] != ' ');
            }
        }
        match line_scan(l0) {
            LineScanPhase::Awaiting => {
                if l.last() != ' ' {
                    let k = l0.len() as int;
                    assert(line_header_payload(l, k));
                    assert(l.skip(k) =~= seq![l.last()]);
                }
            },
            LineScanPhase::Capturing(w0) => {
                let k = choose|k: int| line_header_payload(l0, k) && w0 == l0.skip(k);
                assert(line_header_payload(l, k)) by {
                    assert(forall|m: int| 2 <= m < k ==> l[m] == l0[m]);
                    assert(l[k] == l0[k]);
                }
                assert(l.skip(k) =~= l0.skip(k).push(l.last()));
            },
            _ => {},
        }
    }
}

/// A stream whose every `#` stands at a line start.
pub open spec fn hashes_at_line_starts(s: Seq<char>) -> bool {
    forall|k: int| 0 <= k < s.len() && s[k] == '#' ==> is_line_start(s, k)
}

/// Inside a captured terminated line of such a stream, `#` can only be the
/// line's first character.
proof fn lemma_line_hash_only_at_start(s: Seq<char>, i: int, j: int)
    requires
        hashes_at_line_starts(s),
        0 <= i <= j < s.len(),
        is_line_start(s, i),
        no_newline(s.subrange(i, j)),
    ensures
        hash_only_at_start(s.subrange(i, j)),
{
    let l = s.subrange(i, j);
    assert forall|k: int| 1 <= k < l.len() implies l[k] != '#' by {
        if l[k] == '#' {
            assert(s[i + k] == '#');
            assert(is_line_start(s, i + k));
            assert(l[k - 1] == s[i + k - 1]);
        }
    }
}

/// For a stream whose `#` markers stand only at line starts, the title
/// scanner reaches `Done` exactly when the stream holds a terminated line
/// that starts with `#`, followed by a space, followed by at least one
/// non-space character before the line's end. The first such line wins and
/// later ones are ignored, since `Done` latches. (A `#` in the middle of a
/// line can arm the scanner too, which is why the restriction is needed for
/// this plain reading.)
pub proof fn lemma_done_iff_header_line(s: Seq<char>)
    requires
        hashes_at_line_starts(s),
    ensures
        (hp_run(s).state is Done) <==> exists|i: int, j: int|
            0 <= i <= j < s.len() && s[j] == '\n' && is_line_start(s, i) && no_newline(
                s.subrange(i, j),
            ) && line_is_header(s.subrange(i, j)),
{
    lemma_header_recognizer_language(s);
    assert forall|i: int, j: int|
        0 <= i <= j < s.len() && s[j] == '\n' && is_line_start(s, i) && no_newline(
            s.subrange(i, j),
        ) implies (line_matches(s.subrange(i, j)) <==> line_is_header(s.subrange(i, j))) by {
        lemma_line_hash_only_at_start(s, i, j);
        lemma_line_scan_characterized(s.subrange(i, j));
    }
    if stream_has_header(s) {
        let (i, j) = choose|i: int, j: int| header_witness(s, i, j);
        assert(line_is_header(s.subrange(i, j)));
    }
    if exists|i: int, j: int|
        0 <= i <= j < s.len() && s[j] == '\n' && is_line_start(s, i) && no_newline(
            s.subrange(i, j),
        ) && line_is_header(s.subrange(i, j)) {
        let (i, j) = choose|i: int, j: int|
            0 <= i <= j < s.len() && s[j] == '\n' && is_line_start(s, i) && no_newline(
                s.subrange(i, j),
            ) && line_is_header(s.subrange(i, j));
        assert(line_matches(s.subrange(i, j)));
        assert(header_witness(s, i, j));
    }
}

/// For a stream whose `#` markers stand only at line starts, a recognized
/// title is read off the first captured terminated line plainly: the line
/// starts `# `, and the title is its text from the first non-space
/// character after the marker to the line's end, with trailing whitespace
/// trimmed.
pub proof fn lemma_first_header_payload_plain(s: Seq<char>)
    requires
        hashes_at_line_starts(s),
    ensures
        crate::header_parser::hp_output(s) matches Some(q) ==> exists|i: int, j: int, k: int|
            #![trigger s.subrange(i, j).skip(k)]
            ({
                let l = s.subrange(i, j);
                &&& first_header_witness(s, i, j)
                &&& l[0] == '#'
                &&& l[1] == ' '
                &&& line_header_payload(l, k)
                &&& q.header == trim_end_spec(l.skip(k))
            }),
{
    lemma_first_header_line_wins(s);
    if crate::header_parser::hp_output(s) is Some {
        let q = crate::header_parser::hp_output(s)->Some_0;
        let (i, j) = choose|i: int, j: int|
            first_header_witness(s, i, j) && (line_scan(s.subrange(i, j)) matches
                LineScanPhase::Capturing(w) && q.header == trim_end_spec(w));
        let l = s.subrange(i, j);
        lemma_line_hash_only_at_start(s, i, j);
        lemma_line_scan_characterized(l);
        let w = line_scan(l)->Capturing_0;
        let k = choose|k: int| line_header_payload(l, k) && w == l.skip(k);
        assert(first_header_witness(s, i, j) && l[0] == '#' && l[1] == ' '
            && line_header_payload(l, k) && q.header == trim_end_spec(l.skip(k)));
    }
}

// ------------------------------------------------------------------
// The link scanner's language.
// ------------------------------------------------------------------

/// The link scanner's progress within one line: its phase and, while a
/// payload is open, the text captured so far.
pub enum RefScanPhase {
    Idle,
    One,
    Two,
    Cap(Seq<char>),
    Close(Seq<char>),
}

/// One step of the within-line scan over one non-newline character.
pub open spec fn ref_phase_step(ph: RefScanPhase, c: char) -> RefScanPhase {
    match ph {
        RefScanPhase::Idle => if c == '[' {
            RefScanPhase::One
        } else {
            RefScanPhase::Idle
        },
        RefScanPhase::One => if c == '[' {
            RefScanPhase::Two
        } else {
            RefScanPhase::Idle
        },
        RefScanPhase::Two => if c == ' ' {
            RefScanPhase::Two
        } else {
            RefScanPhase::Cap(seq![c])
        },
        RefScanPhase::Cap(w) => if c == ']' {
            RefScanPhase::Close(w)
        } else {
            RefScanPhase::Cap(w.push(c))
        },
        RefScanPhase::Close(w) => if c == ']' {
            RefScanPhase::Idle
        } else {
            RefScanPhase::Cap(w.push(']').push(c))
        },
    }
}

/// What this step emits: the finished payload on a second closing bracket,
/// nothing otherwise.
pub open spec fn ref_emit(ph: RefScanPhase, c: char) -> Seq<Seq<char>> {
    match ph {
        RefScanPhase::Close(w) => if c == ']' {
            seq![w]
        } else {
            Seq::empty()
        },
        _ => Seq::empty(),
    }
}

/// The phase after scanning a newline-free stretch from a given phase.
pub open spec fn ref_scan_from(ph: RefScanPhase, l: Seq<char>) -> RefScanPhase
    decreases l.len(),
{
    if l.len() == 0 {
        ph
    } else {
        ref_phase_step(ref_scan_from(ph, l.drop_last()), l.last())
    }
}

/// The payload texts scanning a newline-free stretch emits, in order, from
/// a given phase.
pub open spec fn ref_texts_from(ph: RefScanPhase, l: Seq<char>) -> Seq<Seq<char>>
    decreases l.len(),
{
    if l.len() == 0 {
        Seq::empty()
    } else {
        ref_texts_from(ph, l.drop_last()) + ref_emit(ref_scan_from(ph, l.drop_last()), l.last())
    }
}

/// A line scanned on its own, from `Idle`.
pub open spec fn ref_line_scan(l: Seq<char>) -> RefScanPhase {
    ref_scan_from(RefScanPhase::Idle, l)
}

/// The payload texts a line scanned on its own emits, in order.
pub open spec fn ref_line_texts(l: Seq<char>) -> Seq<Seq<char>> {
    ref_texts_from(RefScanPhase::Idle, l)
}

/// The payload texts of every terminated line of the stream, in order.
pub open spec fn closed_ref_texts(s: Seq<char>) -> Seq<Seq<char>>
    decreases s.len(),
{
    if s.len() == 0 {
        Seq::empty()
    } else if s.last() == '\n' {
        closed_ref_texts(s.drop_last()) + ref_line_texts(cur_line(s.drop_last()))
    } else {
        closed_ref_texts(s.drop_last())
    }
}

/// Whether a link-scanner state and a within-line phase name the same point
/// of progress, captured text included.
pub open spec fn ref_phase_corresponds(st: ReferenceStateModel, ph: RefScanPhase) -> bool {
    match st {
        ReferenceStateModel::Idle => ph == RefScanPhase::Idle,
        ReferenceStateModel::SawOneBracket => ph == RefScanPhase::One,
        ReferenceStateModel::SawTwoBrackets => ph == RefScanPhase::Two,
        ReferenceStateModel::Capturing(p) => ph == RefScanPhase::Cap(p.header),
        ReferenceStateModel::SawOneCloseBracket(p) => ph == RefScanPhase::Close(p.header),
    }
}

/// The texts of the occurrences a scan has emitted.
pub open spec fn emitted_texts(refs: Seq<crate::header_parser::PayloadModel>) -> Seq<Seq<char>> {
    refs.map_values(|q: crate::header_parser::PayloadModel| q.header)
}

/// The link scanner walks each line exactly as the within-line scan does,
/// and its emitted texts are the terminated lines' texts followed by the
/// current line's.
proof fn lemma_ref_scan_invariant(s: Seq<char>)
    ensures
        ref_phase_corresponds(rp_run(s).state, ref_line_scan(cur_line(s))),
        emitted_texts(rp_run(s).references) == closed_ref_texts(s) + ref_line_texts(cur_line(s)),
    decreases s.len(),
{
    if s.len() == 0 {
        assert(cur_line(s) =~= Seq::<char>::empty());
        assert(emitted_texts(rp_run(s).references) =~= Seq::<Seq<char>>::empty());
        assert(closed_ref_texts(s) + ref_line_texts(cur_line(s)) =~= Seq::<Seq<char>>::empty());
    } else {
        let s0 = s.drop_last();
        let c = s.last();
        lemma_ref_scan_invariant(s0);
        lemma_cur_line_props(s0);
        assert(s == s0.push(c));
        if c == '\n' {
            assert(cur_line(s) =~= Seq::<char>::empty());
            assert(closed_ref_texts(s) + ref_line_texts(cur_line(s)) =~= closed_ref_texts(s0)
                + ref_line_texts(cur_line(s0)));
        } else {
            assert(cur_line_start(s) == cur_line_start(s0));
            assert(cur_line(s) =~= cur_line(s0).push(c));
            assert(cur_line(s).drop_last() =~= cur_line(s0));
            match rp_run(s0).state {
                ReferenceStateModel::SawOneCloseBracket(p) => {
                    if c == ']' {
                        assert(emitted_texts(rp_run(s).references) =~= emitted_texts(
                            rp_run(s0).references,
                        ).push(p.header));
                        assert(closed_ref_texts(s) + ref_line_texts(cur_line(s)) =~= (
                        closed_ref_texts(s0) + ref_line_texts(cur_line(s0))).push(p.header));
                    } else {
                        assert(closed_ref_texts(s) + ref_line_texts(cur_line(s))
                            =~= closed_ref_texts(s0) + ref_line_texts(cur_line(s0)));
                    }
                },
                _ => {
                    assert(ref_emit(ref_line_scan(cur_line(s0)), c) =~= Seq::<Seq<char>>::empty());
                    assert(closed_ref_texts(s) + ref_line_texts(cur_line(s)) =~= closed_ref_texts(
                        s0,
                    ) + ref_line_texts(cur_line(s0)));
                },
            }
        }
    }
}

/// The link scanner never reads across a newline: its emitted payload texts
/// over any stream are, line by line and in order, what each line emits on
/// its own.
pub proof fn lemma_reference_recognizer_line_texts(s: Seq<char>)
    ensures
        emitted_texts(rp_run(s).references) == closed_ref_texts(s) + ref_line_texts(cur_line(s)),
{
    lemma_ref_scan_invariant(s);
}

/// Text that cannot open a link: no `[[` pair, no trailing `[`, and no
/// newline. Lone brackets outside a link are inert, so they may occur.
pub open spec fn plain_text(t: Seq<char>) -> bool {
    &&& (forall|k: int| 0 <= k < t.len() ==> t[k] != '\n')
    &&& (forall|k: int| 0 <= k < t.len() - 1 ==> !((#[trigger] t[k]) == '[' && t[k + 1] == '['))
    &&& (t.len() > 0 ==> t.last() != '[')
}

/// Well-formed link text: nonempty, not opening with a space, and free of
/// closers and newlines.
pub open spec fn link_text(w: Seq<char>) -> bool {
    w.len() >= 1 && w[0] != ' ' && (forall|k: int| 0 <= k < w.len() ==> w[k] != ']' && w[k] != '\n')
}

/// One well-formed occurrence: leading plain text, then the bracketed link.
pub open spec fn occurrence(t: Seq<char>, w: Seq<char>) -> Seq<char> {
    t + seq!['['] + seq!['['] + w + seq![']'] + seq![']']
}

/// A line made of well-formed occurrences, in order.
pub open spec fn line_of(parts: Seq<(Seq<char>, Seq<char>)>) -> Seq<char>
    decreases parts.len(),
{
    if parts.len() == 0 {
        Seq::empty()
    } else {
        line_of(parts.drop_last()) + occurrence(parts.last().0, parts.last().1)
    }
}

/// A line: well-formed occurrences in order, then trailing text that
/// cannot open a link.
pub open spec fn line_with_tail(parts: Seq<(Seq<char>, Seq<char>)>, tail: Seq<char>) -> Seq<
    char,
> {
    line_of(parts) + tail
}

/// Every occurrence of the line is well formed.
pub open spec fn clean_parts(parts: Seq<(Seq<char>, Seq<char>)>) -> bool {
    forall|k: int|
        0 <= k < parts.len() ==> plain_text((#[trigger] parts[k]).0) && link_text(parts[k].1)
}

/// Scanning splits over concatenation of newline-free stretches.
proof fn lemma_ref_scan_concat(ph: RefScanPhase, a: Seq<char>, b: Seq<char>)
    ensures
        ref_scan_from(ph, a + b) == ref_scan_from(ref_scan_from(ph, a), b),
        ref_texts_from(ph, a + b) == ref_texts_from(ph, a) + ref_texts_from(
            ref_scan_from(ph, a),
            b,
        ),
    decreases b.len(),
{
    if b.len() == 0 {
        assert(a + b =~= a);
        assert(ref_texts_from(ph, a) + ref_texts_from(ref_scan_from(ph, a), b) =~= ref_texts_from(
            ph,
            a,
        ));
    } else {
        lemma_ref_scan_concat(ph, a, b.drop_last());
        assert((a + b).drop_last() =~= a + b.drop_last());
        assert((a + b).last() == b.last());
        assert(ref_texts_from(ph, a) + (ref_texts_from(ref_scan_from(ph, a), b.drop_last())
            + ref_emit(ref_scan_from(ref_scan_from(ph, a), b.drop_last()), b.last())) =~= (
        ref_texts_from(ph, a) + ref_texts_from(ref_scan_from(ph, a), b.drop_last())) + ref_emit(
            ref_scan_from(ref_scan_from(ph, a), b.drop_last()),
            b.last(),
        ));
    }
}

/// A single character scans as one step and emits as one step.
proof fn lemma_ref_scan_one(ph: RefScanPhase, c: char)
    ensures
        ref_scan_from(ph, seq![c]) == ref_phase_step(ph, c),
        ref_texts_from(ph, seq![c]) == ref_emit(ph, c),
{
    assert(seq![c].drop_last() =~= Seq::<char>::empty());
    assert(seq![c].last() == c);
    assert(ref_scan_from(ph, Seq::<char>::empty()) == ph);
    assert(ref_texts_from(ph, Seq::<char>::empty()) =~= Seq::<Seq<char>>::empty());
    assert(ref_texts_from(ph, seq![c]) == ref_texts_from(ph, seq![c].drop_last()) + ref_emit(
        ref_scan_from(ph, seq![c].drop_last()),
        c,
    ));
    assert(Seq::<Seq<char>>::empty() + ref_emit(ph, c) =~= ref_emit(ph, c));
}

/// Without a `[[` pair, a scan from `Idle` only ever reaches `One`, and
/// that exactly on a trailing `[`; nothing is emitted.
proof fn lemma_inert_prefix(t: Seq<char>)
    requires
        forall|k: int| 0 <= k < t.len() ==> t[k] != '\n',
        forall|k: int| 0 <= k < t.len() - 1 ==> !((#[trigger] t[k]) == '[' && t[k + 1] == '['),
    ensures
        ref_scan_from(RefScanPhase::Idle, t) == if t.len() > 0 && t.last() == '[' {
            RefScanPhase::One
        } else {
            RefScanPhase::Idle
        },
        ref_texts_from(RefScanPhase::Idle, t) == Seq::<Seq<char>>::empty(),
    decreases t.len(),
{
    if t.len() > 0 {
        let t0 = t.drop_last();
        assert(forall|k: int| 0 <= k < t0.len() ==> t0[k] == t[k]);
        lemma_inert_prefix(t0);
        if t0.len() > 0 && t0.last() == '[' {
            assert(!(t[t.len() - 2] == '[' && t[t.len() - 1] == '['));
            assert(t.last() != '[');
        }
        assert(ref_texts_from(RefScanPhase::Idle, t) =~= Seq::<Seq<char>>::empty());
    }
}

/// Plain text leaves `Idle` alone and emits nothing.
proof fn lemma_plain_from_idle(t: Seq<char>)
    requires
        plain_text(t),
    ensures
        ref_scan_from(RefScanPhase::Idle, t) == RefScanPhase::Idle,
        ref_texts_from(RefScanPhase::Idle, t) == Seq::<Seq<char>>::empty(),
{
    lemma_inert_prefix(t);
}

/// Link text keeps the scanner capturing, extends the capture, and emits
/// nothing.
proof fn lemma_link_tail_capturing(w0: Seq<char>, w: Seq<char>)
    requires
        forall|k: int| 0 <= k < w.len() ==> w[k] != ']' && w[k] != '\n',
    ensures
        ref_scan_from(RefScanPhase::Cap(w0), w) == RefScanPhase::Cap(w0 + w),
        ref_texts_from(RefScanPhase::Cap(w0), w) == Seq::<Seq<char>>::empty(),
    decreases w.len(),
{
    if w.len() == 0 {
        assert(w0 + w =~= w0);
    } else {
        assert(forall|k: int| 0 <= k < w.len() - 1 ==> w.drop_last()[k] == w[k]);
        lemma_link_tail_capturing(w0, w.drop_last());
        assert((w0 + w.drop_last()).push(w.last()) =~= w0 + w);
        assert(ref_texts_from(RefScanPhase::Cap(w0), w) =~= Seq::<Seq<char>>::empty());
    }
}

/// One well-formed occurrence, scanned from `Idle`, emits exactly its link
/// text and returns to `Idle`.
proof fn lemma_occurrence_emits_one(t: Seq<char>, w: Seq<char>)
    requires
        plain_text(t),
        link_text(w),
    ensures
        ref_scan_from(RefScanPhase::Idle, occurrence(t, w)) == RefScanPhase::Idle,
        ref_texts_from(RefScanPhase::Idle, occurrence(t, w)) == seq![w],
{
    let open2 = t + seq!['['] + seq!['['];
    lemma_plain_from_idle(t);
    lemma_ref_scan_one(RefScanPhase::Idle, '[');
    lemma_ref_scan_one(RefScanPhase::One, '[');
    lemma_ref_scan_concat(RefScanPhase::Idle, t, seq!['[']);
    lemma_ref_scan_concat(RefScanPhase::Idle, t + seq!['['], seq!['[']);
    assert(ref_scan_from(RefScanPhase::Idle, open2) == RefScanPhase::Two);
    assert(ref_texts_from(RefScanPhase::Idle, open2) =~= Seq::<Seq<char>>::empty());
    lemma_ref_scan_concat(RefScanPhase::Idle, open2, w);
    assert(w == seq![w[0]] + w.drop_first()) by {
        assert(w =~= seq![w[0]] + w.drop_first());
    }
    lemma_ref_scan_concat(RefScanPhase::Two, seq![w[0]], w.drop_first());
    lemma_ref_scan_one(RefScanPhase::Two, w[0]);
    assert(ref_scan_from(RefScanPhase::Two, seq![w[0]]) == RefScanPhase::Cap(seq![w[0]]));
    assert(forall|k: int|
        0 <= k < w.drop_first().len() ==> w.drop_first()[k] != ']' && w.drop_first()[k] != '\n');
    lemma_link_tail_capturing(seq![w[0]], w.drop_first());
    assert(seq![w[0]] + w.drop_first() =~= w);
    assert(ref_scan_from(RefScanPhase::Idle, open2 + w) == RefScanPhase::Cap(w));
    assert(ref_texts_from(RefScanPhase::Idle, open2 + w) =~= Seq::<Seq<char>>::empty());
    lemma_ref_scan_one(RefScanPhase::Cap(w), ']');
    lemma_ref_scan_one(RefScanPhase::Close(w), ']');
    lemma_ref_scan_concat(RefScanPhase::Idle, open2 + w, seq![']']);
    lemma_ref_scan_concat(RefScanPhase::Idle, open2 + w + seq![']'], seq![']']);
    assert(occurrence(t, w) =~= open2 + w + seq![']'] + seq![']']);
    assert(ref_scan_from(RefScanPhase::Idle, occurrence(t, w)) == RefScanPhase::Idle);
    assert(ref_texts_from(RefScanPhase::Idle, occurrence(t, w)) =~= seq![w]);
}

/// A run of well-formed occurrences, scanned on its own, emits exactly
/// the link text of each occurrence, in order.
proof fn lemma_clean_line_core(parts: Seq<(Seq<char>, Seq<char>)>)
    requires
        clean_parts(parts),
    ensures
        ref_line_scan(line_of(parts)) == RefScanPhase::Idle,
        ref_line_texts(line_of(parts)) == parts.map_values(|p: (Seq<char>, Seq<char>)| p.1),
    decreases parts.len(),
{
    if parts.len() == 0 {
        assert(ref_line_texts(line_of(parts)) =~= parts.map_values(
            |p: (Seq<char>, Seq<char>)| p.1,
        ));
    } else {
        assert(clean_parts(parts.drop_last())) by {
            assert(forall|k: int| 0 <= k < parts.len() - 1 ==> parts.drop_last()[k] == parts[k]);
        }
        lemma_clean_line_core(parts.drop_last());
        lemma_ref_scan_concat(
            RefScanPhase::Idle,
            line_of(parts.drop_last()),
            occurrence(parts.last().0, parts.last().1),
        );
        lemma_occurrence_emits_one(parts.last().0, parts.last().1);
        assert(ref_line_texts(line_of(parts)) =~= parts.map_values(
            |p: (Seq<char>, Seq<char>)| p.1,
        ));
    }
}

/// A line of well-formed occurrences followed by trailing text, scanned on
/// its own, emits exactly the link text of each occurrence, in order.
pub proof fn lemma_clean_line_texts(parts: Seq<(Seq<char>, Seq<char>)>, tail: Seq<char>)
    requires
        clean_parts(parts),
        plain_text(tail),
    ensures
        ref_line_scan(line_with_tail(parts, tail)) == RefScanPhase::Idle,
        ref_line_texts(line_with_tail(parts, tail)) == parts.map_values(
            |p: (Seq<char>, Seq<char>)| p.1,
        ),
{
    lemma_clean_line_core(parts);
    lemma_ref_scan_concat(RefScanPhase::Idle, line_of(parts), tail);
    lemma_plain_from_idle(tail);
    assert(ref_line_texts(line_with_tail(parts, tail)) =~= parts.map_values(
        |p: (Seq<char>, Seq<char>)| p.1,
    ));
}

/// A line of well-formed occurrences and trailing text holds no newline.
proof fn lemma_line_with_tail_no_newline(parts: Seq<(Seq<char>, Seq<char>)>, tail: Seq<char>)
    requires
        clean_parts(parts),
        plain_text(tail),
    ensures
        no_newline(line_with_tail(parts, tail)),
{
    lemma_line_of_no_newline(parts);
    let l = line_with_tail(parts, tail);
    assert forall|k: int| 0 <= k < l.len() implies l[k] != '\n' by {
        if k < line_of(parts).len() {
            assert(l[k] == line_of(parts)[k]);
        } else {
            assert(l[k] == tail[k - line_of(parts).len()]);
        }
    }
}

/// A line of well-formed occurrences holds no newline.
proof fn lemma_line_of_no_newline(parts: Seq<(Seq<char>, Seq<char>)>)
    requires
        clean_parts(parts),
    ensures
        no_newline(line_of(parts)),
    decreases parts.len(),
{
    if parts.len() > 0 {
        assert(clean_parts(parts.drop_last())) by {
            assert(forall|k: int| 0 <= k < parts.len() - 1 ==> parts.drop_last()[k] == parts[k]);
        }
        lemma_line_of_no_newline(parts.drop_last());
        let t = parts.last().0;
        let w = parts.last().1;
        let occ = occurrence(t, w);
        assert(no_newline(occ)) by {
            assert(forall|k: int| 0 <= k < t.len() ==> occ[k] == t[k]);
            assert(occ[t.len() as int] == '[');
            assert(occ[t.len() as int + 1] == '[');
            assert(forall|k: int|
                0 <= k < w.len() ==> occ[t.len() + 2 + k] == w[k]);
            assert(occ[t.len() as int + 2 + w.len() as int] == ']');
            assert(occ[t.len() as int + 3 + w.len() as int] == ']');
        }
        assert(forall|k: int|
            0 <= k < line_of(parts).len() ==> line_of(parts)[k] != '\n') by {
            assert(forall|k: int|
                0 <= k < line_of(parts.drop_last()).len() ==> line_of(parts)[k] == line_of(
                    parts.drop_last(),
                )[k]);
            assert(forall|k: int|
                0 <= k < occ.len() ==> line_of(parts)[line_of(parts.drop_last()).len() + k]
                    == occ[k]);
        }
    }
}

/// Appending a newline-free stretch closes no line and extends the current
/// one.
proof fn lemma_closed_extend_no_newline(a: Seq<char>, l: Seq<char>)
    requires
        no_newline(l),
    ensures
        closed_ref_texts(a + l) == closed_ref_texts(a),
        cur_line(a + l) == cur_line(a) + l,
    decreases l.len(),
{
    if l.len() == 0 {
        assert(a + l =~= a);
        assert(cur_line(a) + l =~= cur_line(a));
    } else {
        assert(no_newline(l.drop_last())) by {
            assert(forall|k: int| 0 <= k < l.len() - 1 ==> l.drop_last()[k] == l[k]);
        }
        lemma_closed_extend_no_newline(a, l.drop_last());
        let s = a + l;
        assert(s.drop_last() =~= a + l.drop_last());
        lemma_cur_line_props(s.drop_last());
        assert(s.last() == l.last());
        assert(s.last() != '\n');
        assert(cur_line_start(s) == cur_line_start(s.drop_last()));
        assert(cur_line(s) =~= cur_line(s.drop_last()).push(s.last()));
        assert(cur_line(a) + l =~= (cur_line(a) + l.drop_last()).push(l.last()));
    }
}

/// Appending one terminated line adds exactly that line's texts to the
/// closed lines.
proof fn lemma_closed_append_line(a: Seq<char>, l: Seq<char>)
    requires
        no_newline(l),
        a.len() == 0 || a.last() == '\n',
    ensures
        closed_ref_texts(a + l.push('\n')) == closed_ref_texts(a) + ref_line_texts(l),
        (a + l.push('\n')).last() == '\n',
{
    let s = a + l.push('\n');
    assert(s.drop_last() =~= a + l);
    assert(s.last() == '\n');
    lemma_closed_extend_no_newline(a, l);
    assert(cur_line(a) =~= Seq::<char>::empty()) by {
        if a.len() == 0 {
            assert(cur_line_start(a) == 0);
        } else {
            assert(cur_line_start(a) == a.len());
        }
    }
    assert(cur_line(a + l) =~= l);
    assert(closed_ref_texts(s) == closed_ref_texts(a + l) + ref_line_texts(cur_line(a + l)));
}

/// A whole document of terminated lines, in order: each line a run of
/// well-formed occurrences and its trailing text.
pub open spec fn doc_of(lines: Seq<(Seq<(Seq<char>, Seq<char>)>, Seq<char>)>) -> Seq<char>
    decreases lines.len(),
{
    if lines.len() == 0 {
        Seq::empty()
    } else {
        doc_of(lines.drop_last()) + line_with_tail(lines.last().0, lines.last().1).push('\n')
    }
}

/// The link texts of a whole document's occurrences, in document order.
pub open spec fn doc_texts(lines: Seq<(Seq<(Seq<char>, Seq<char>)>, Seq<char>)>) -> Seq<
    Seq<char>,
>
    decreases lines.len(),
{
    if lines.len() == 0 {
        Seq::empty()
    } else {
        doc_texts(lines.drop_last()) + lines.last().0.map_values(
            |p: (Seq<char>, Seq<char>)| p.1,
        )
    }
}

/// Every line of the document is made of well-formed occurrences and text
/// that cannot open a link.
pub open spec fn clean_lines(lines: Seq<(Seq<(Seq<char>, Seq<char>)>, Seq<char>)>) -> bool {
    forall|i: int|
        0 <= i < lines.len() ==> clean_parts((#[trigger] lines[i]).0) && plain_text(lines[i].1)
}

/// The terminated lines of such a document carry exactly its occurrences'
/// link texts, and the document ends at a line boundary.
proof fn lemma_doc_closed_texts(lines: Seq<(Seq<(Seq<char>, Seq<char>)>, Seq<char>)>)
    requires
        clean_lines(lines),
    ensures
        closed_ref_texts(doc_of(lines)) == doc_texts(lines),
        doc_of(lines).len() == 0 || doc_of(lines).last() == '\n',
    decreases lines.len(),
{
    if lines.len() > 0 {
        assert(clean_lines(lines.drop_last())) by {
            assert(forall|i: int| 0 <= i < lines.len() - 1 ==> lines.drop_last()[i] == lines[i]);
        }
        lemma_doc_closed_texts(lines.drop_last());
        lemma_line_with_tail_no_newline(lines.last().0, lines.last().1);
        lemma_closed_append_line(
            doc_of(lines.drop_last()),
            line_with_tail(lines.last().0, lines.last().1),
        );
        lemma_clean_line_texts(lines.last().0, lines.last().1);
    }
}

/// For any document whose lines are made of well-formed `[[...]]`
/// occurrences and text that cannot open a link, the link recognizer yields
/// exactly one payload per occurrence, in document order, each carrying its
/// occurrence's link text.
pub proof fn lemma_reference_recognizer_document(
    lines: Seq<(Seq<(Seq<char>, Seq<char>)>, Seq<char>)>,
)
    requires
        clean_lines(lines),
    ensures
        emitted_texts(rp_run(doc_of(lines)).references) == doc_texts(lines),
{
    let s = doc_of(lines);
    lemma_reference_recognizer_line_texts(s);
    lemma_doc_closed_texts(lines);
    assert(cur_line(s) =~= Seq::<char>::empty()) by {
        if s.len() == 0 {
            assert(cur_line_start(s) == 0);
        } else {
            assert(cur_line_start(s) == s.len());
        }
    }
    assert(ref_line_texts(cur_line(s)) =~= Seq::<Seq<char>>::empty());
    assert(closed_ref_texts(s) + ref_line_texts(cur_line(s)) =~= closed_ref_texts(s));
}

// ------------------------------------------------------------------
// The index's behavior across calls.
// ------------------------------------------------------------------

/// Storing a file record and looking its title up gives the record back,
/// path and header included: the index round-trips what `create_file`
/// stores, exactly as `find` reads it.
pub proof fn lemma_create_then_find(m: Map<Seq<char>, Seq<u8>>, f: FileModel)
    requires
        file_encodable(f),
    ensures
        m.insert(f.header, enc_file(f)).contains_key(f.header),
        sdec_file_full(m.insert(f.header, enc_file(f))[f.header]) == Some(f),
{
    lemma_dec_enc_file(enc_file(f), f);
}

/// After a record claims a title, any later record with the same title and
/// another path finds the title taken — `create_file` then refuses it — and
/// a lookup still answers with the first record.
pub proof fn lemma_duplicate_title_kept(m: Map<Seq<char>, Seq<u8>>, a: FileModel, b: FileModel)
    requires
        file_encodable(a),
        b.header == a.header,
    ensures
        m.insert(a.header, enc_file(a)).contains_key(b.header),
        sdec_file_full(m.insert(a.header, enc_file(a))[b.header]) == Some(a),
{
    lemma_create_then_find(m, a);
}

/// Writing two occurrences with the same link text, in order, leaves the
/// table exactly as if only the most recent had been written: the last
/// write wins.
pub proof fn lemma_upsert_last_wins(
    m: Map<Seq<char>, Seq<u8>>,
    r1: ReferenceModel,
    r2: ReferenceModel,
)
    requires
        r1.header == r2.header,
    ensures
        m.insert(r1.header, enc_reference(r1)).insert(r2.header, enc_reference(r2)) == m.insert(
            r2.header,
            enc_reference(r2),
        ),
{
    assert(m.insert(r1.header, enc_reference(r1)).insert(r2.header, enc_reference(r2)) =~= m.insert(
        r2.header,
        enc_reference(r2),
    ));
}

} // verus!
