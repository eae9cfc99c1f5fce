//! The title-line recognizer: a five-state scanner that finds a document's
//! first `# Title` line and latches once it has one.

use vstd::prelude::*;
use vstd::string::*;

use crate::location::{loc_init, loc_mark, loc_next, loc_resume, LocModel, Location};
use crate::text::{char_is_whitespace, push_char};

verus! {

/// Mathematical model of a captured payload: the text so far and the span of
/// its source characters.
pub struct PayloadModel {
    pub header: Seq<char>,
    pub location: LocModel,
}

/// Appending one more captured character to a payload.
pub open spec fn payload_next(p: PayloadModel, c: char) -> PayloadModel {
    PayloadModel { header: p.header.push(c), location: loc_next(p.location, c) }
}

/// The recognizer's states. `Done` is terminal: once a title is recognized,
/// all further input is ignored.
pub enum HeaderStateModel {
    Idle,
    SawMarker,
    AwaitingContent,
    Capturing(PayloadModel),
    Done(PayloadModel),
}

/// The whole scanner: its state and its own cursor.
pub struct HeaderModel {
    pub state: HeaderStateModel,
    pub location: LocModel,
}

/// A fresh scanner.
pub open spec fn hp_init() -> HeaderModel {
    HeaderModel { state: HeaderStateModel::Idle, location: loc_init() }
}

/// One step of the scanner over one character.
///
/// * `Idle`: a `#` opens a span and arms the marker; all else is ignored.
/// * `SawMarker`: a space confirms the marker; all else abandons the span.
/// * `AwaitingContent`: spaces are skipped, a newline aborts the line, and
///   any other character becomes the first captured character.
/// * `Capturing`: a newline finishes the title; all else is captured.
/// * `Done`: latched; input no longer moves the scanner.
pub open spec fn hp_step(m: HeaderModel, c: char) -> HeaderModel {
    if m.state is Done {
        m
    } else {
        let l = loc_next(m.location, c);
        match m.state {
            HeaderStateModel::Idle => if c == '#' {
                HeaderModel { state: HeaderStateModel::SawMarker, location: loc_mark(l) }
            } else {
                HeaderModel { state: HeaderStateModel::Idle, location: l }
            },
            HeaderStateModel::SawMarker => if c == ' ' {
                HeaderModel { state: HeaderStateModel::AwaitingContent, location: l }
            } else {
                HeaderModel { state: HeaderStateModel::Idle, location: loc_resume(l) }
            },
            HeaderStateModel::AwaitingContent => if c == ' ' {
                HeaderModel { state: HeaderStateModel::AwaitingContent, location: l }
            } else if c == '\n' {
                HeaderModel { state: HeaderStateModel::Idle, location: l }
            } else {
                HeaderModel {
                    state: HeaderStateModel::Capturing(
                        PayloadModel { header: seq![c], location: l },
                    ),
                    location: l,
                }
            },
            HeaderStateModel::Capturing(p) => if c == '\n' {
                HeaderModel { state: HeaderStateModel::Done(p), location: l }
            } else {
                HeaderModel { state: HeaderStateModel::Capturing(payload_next(p, c)), location: l }
            },
            HeaderStateModel::Done(_) => m,
        }
    }
}

/// The scanner after consuming a whole stream.
pub open spec fn hp_run(s: Seq<char>) -> HeaderModel
    decreases s.len(),
{
    if s.len() == 0 {
        hp_init()
    } else {
        hp_step(hp_run(s.drop_last()), s.last())
    }
}

/// Dropping trailing whitespace characters.
pub open spec fn trim_end_spec(s: Seq<char>) -> Seq<char>
    decreases s.len(),
{
    if s.len() > 0 && char_is_whitespace(s.last()) {
        trim_end_spec(s.drop_last())
    } else {
        s
    }
}

/// What the recognizer yields for a whole stream: the captured title with
/// trailing whitespace trimmed, only if `Done` was reached. The recorded span
/// is left untouched by the trim.
pub open spec fn hp_output(s: Seq<char>) -> Option<PayloadModel> {
    match hp_run(s).state {
        HeaderStateModel::Done(p) => Some(
            PayloadModel { header: trim_end_spec(p.header), location: p.location },
        ),
        _ => None,
    }
}

/// Cursor fields stay within the count of consumed characters.
pub open spec fn loc_bounded(l: LocModel, n: int) -> bool {
    &&& 0 <= l.line <= n
    &&& -1 <= l.start
    &&& l.start <= l.end
    &&& l.end < n
    &&& (!l.in_range ==> l.start == l.end)
}

/// Every cursor the title scanner holds stays within the count of consumed
/// characters; this is what keeps the executable counters from overflowing.
pub proof fn lemma_hp_run_bounds(s: Seq<char>)
    ensures
        loc_bounded(hp_run(s).location, s.len() as int),
        match hp_run(s).state {
            HeaderStateModel::Capturing(p) => loc_bounded(p.location, s.len() as int),
            HeaderStateModel::Done(p) => loc_bounded(p.location, s.len() as int),
            _ => true,
        },
    decreases s.len(),
{
    if s.len() > 0 {
        lemma_hp_run_bounds(s.drop_last());
    }
}

/// The captured text and span of a recognized (or in-progress) title.
#[derive(Debug)]
pub struct HeaderParserPayload {
    pub header: String,
    pub location: Location,
}

impl View for HeaderParserPayload {
    type V = PayloadModel;

    open spec fn view(&self) -> PayloadModel {
        PayloadModel { header: self.header@, location: self.location@ }
    }
}

impl HeaderParserPayload {
    /// A payload opened by its first captured character.
    pub fn from(c: char, location: Location) -> (r: Self)
        ensures
            r@ == (PayloadModel { header: seq![c], location: location@ }),
    {
        let mut header = String::new();
        push_char(&mut header, c);
        Self { header, location }
    }

    /// Capture one more character; the span's end follows it.
    pub fn push(&mut self, c: char)
        requires
            old(self)@.location.line < u32::MAX,
            old(self)@.location.start < i64::MAX,
            old(self)@.location.end < i64::MAX,
        ensures
            final(self)@ == payload_next(old(self)@, c),
    {
        push_char(&mut self.header, c);
        self.location.next(c);
    }

    /// Drop trailing whitespace from the text. The recorded span is kept as
    /// it was captured, even though the text may now be shorter.
    pub fn trim(self) -> (r: Self)
        ensures
            r@.header == trim_end_spec(self@.header),
            r@.location == self@.location,
    {
        let s = self.header.as_str();
        let n = s.unicode_len();
        let mut k = n;
        while k > 0 && s.get_char(k - 1).is_whitespace()
            invariant
                k <= n,
                n == s@.len(),
                forall|i: int| k <= i < s@.len() ==> char_is_whitespace(s@[i]),
            decreases k,
        {
            k = k - 1;
        }
        proof {
            lemma_trim_end_take(self.header@, k as int);
        }
        let t = s.substring_char(0, k);
        Self { header: String::from_str(t), location: self.location }
    }
}

/// Trimming removes exactly the trailing run of whitespace: if everything
/// from `k` on is whitespace and the character before `k` is not, the trimmed
/// text is the first `k` characters.
proof fn lemma_trim_end_take(s: Seq<char>, k: int)
    requires
        0 <= k <= s.len(),
        forall|i: int| k <= i < s.len() ==> char_is_whitespace(s[i]),
        k == 0 || !char_is_whitespace(s[k - 1]),
    ensures
        trim_end_spec(s) == s.take(k),
    decreases s.len(),
{
    if k == s.len() {
        assert(s.take(k) =~= s);
    } else {
        assert(char_is_whitespace(s.last()));
        lemma_trim_end_take(s.drop_last(), k);
        assert(s.drop_last().take(k) =~= s.take(k));
    }
}

/// The recognizer's live state, one variant per named state.
#[derive(Debug)]
pub enum HeaderState {
    Idle,
    SawMarker,
    AwaitingContent,
    Capturing(HeaderParserPayload),
    Done(HeaderParserPayload),
}

impl View for HeaderState {
    type V = HeaderStateModel;

    open spec fn view(&self) -> HeaderStateModel {
        match self {
            HeaderState::Idle => HeaderStateModel::Idle,
            HeaderState::SawMarker => HeaderStateModel::SawMarker,
            HeaderState::AwaitingContent => HeaderStateModel::AwaitingContent,
            HeaderState::Capturing(p) => HeaderStateModel::Capturing(p@),
            HeaderState::Done(p) => HeaderStateModel::Done(p@),
        }
    }
}

/// The title-line recognizer.
pub struct HeaderParser {
    state: HeaderState,
    location: Location,
    consumed: Ghost<Seq<char>>,
}

impl View for HeaderParser {
    type V = HeaderModel;

    closed spec fn view(&self) -> HeaderModel {
        HeaderModel { state: self.state@, location: self.location@ }
    }
}

impl HeaderParser {
    /// The stream this recognizer has consumed so far.
    pub closed spec fn consumed(self) -> Seq<char> {
        self.consumed@
    }

    /// The recognizer's state is exactly the scanner model run over its
    /// consumed stream.
    pub open spec fn wf(self) -> bool {
        self@ == hp_run(self.consumed())
    }

    /// A fresh recognizer.
    pub fn new() -> (r: Self)
        ensures
            r.wf(),
            r.consumed() == Seq::<char>::empty(),
    {
        Self {
            state: HeaderState::Idle,
            location: Location::default(),
            consumed: Ghost(Seq::empty()),
        }
    }

    /// Consume one character.
    pub fn next(&mut self, c: char)
        requires
            old(self).wf(),
            old(self).consumed().len() < u32::MAX as nat,
        ensures
            final(self).wf(),
            final(self).consumed() == old(self).consumed().push(c),
    {
        proof {
            lemma_hp_run_bounds(self.consumed@);
        }
        let ghost prior = self.consumed@;
        proof {
            self.consumed@ = prior.push(c);
            assert(self.consumed@.drop_last() =~= prior);
        }
        if let HeaderState::Done(_) = &self.state {
            return ;
        }
        self.location.next(c);
        let mut st = HeaderState::Idle;
        core::mem::swap(&mut st, &mut self.state);
        match st {
            HeaderState::Idle => {
                if c == '#' {
                    self.location.in_range();
                    self.state = HeaderState::SawMarker;
                } else {
                    self.state = HeaderState::Idle;
                }
            },
            HeaderState::SawMarker => {
                if c == ' ' {
                    self.state = HeaderState::AwaitingContent;
                } else {
                    self.location.resume();
                    self.state = HeaderState::Idle;
                }
            },
            HeaderState::AwaitingContent => {
                if c == ' ' {
                    self.state = HeaderState::AwaitingContent;
                } else if c == '\n' {
                    self.state = HeaderState::Idle;
                } else {
                    self.state = HeaderState::Capturing(HeaderParserPayload::from(c, self.location));
                }
            },
            HeaderState::Capturing(mut p) => {
                if c == '\n' {
                    self.state = HeaderState::Done(p);
                } else {
                    p.push(c);
                    self.state = HeaderState::Capturing(p);
                }
            },
            HeaderState::Done(p) => {
                self.state = HeaderState::Done(p);
            },
        }
    }

    /// The recognized title, trimmed, if the scanner reached `Done`.
    pub fn call(self) -> (r: Option<HeaderParserPayload>)
        requires
            self.wf(),
        ensures
            r is Some <==> hp_output(self.consumed()) is Some,
            r matches Some(p) ==> hp_output(self.consumed()) == Some(p@),
    {
        match self.state {
            HeaderState::Done(p) => Some(p.trim()),
            _ => None,
        }
    }

    /// Whether the scanner has latched on a recognized title.
    pub fn is_done(&self) -> (r: bool)
        ensures
            r == (self@.state is Done),
    {
        match &self.state {
            HeaderState::Done(_) => true,
            _ => false,
        }
    }

    /// The scanner's live state.
    pub fn state(&self) -> (r: &HeaderState)
        ensures
            r@ == self@.state,
    {
        &self.state
    }

    /// The scanner's own cursor.
    pub fn location(&self) -> (r: Location)
        ensures
            r@ == self@.location,
    {
        self.location
    }
}

impl Default for HeaderParser {
    /// The same fresh recognizer as [`HeaderParser::new`].
    fn default() -> (r: Self)
        ensures
            r.wf(),
            r.consumed() == Seq::<char>::empty(),
    {
        Self::new()
    }
}

} // verus!
