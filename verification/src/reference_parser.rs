//! The link recognizer: a five-state scanner that finds every `[[...]]`
//! occurrence in a document, emitting payloads in document order.

use vstd::prelude::*;

use crate::header_parser::PayloadModel;
use crate::location::{loc_init, loc_next, LocModel, Location};
use crate::text::push_char;

verus! {

/// The recognizer's states. Unlike the title scanner it never latches: each
/// emitted occurrence returns it to `Idle` for the next one.
pub enum ReferenceStateModel {
    Idle,
    SawOneBracket,
    SawTwoBrackets,
    Capturing(PayloadModel),
    SawOneCloseBracket(PayloadModel),
}

/// The whole scanner: its state, every occurrence emitted so far in document
/// order, and its own cursor.
pub struct ReferenceScanModel {
    pub state: ReferenceStateModel,
    pub references: Seq<PayloadModel>,
    pub location: LocModel,
}

/// A fresh scanner.
pub open spec fn rp_init() -> ReferenceScanModel {
    ReferenceScanModel {
        state: ReferenceStateModel::Idle,
        references: Seq::empty(),
        location: loc_init(),
    }
}

/// One step of the scanner over one character.
///
/// * `Idle`: a `[` arms the opener; all else is ignored.
/// * `SawOneBracket`: a second `[` confirms the opener; all else drops it.
/// * `SawTwoBrackets`: spaces are skipped, a newline aborts the opener, and
///   any other character becomes the first captured character. The payload's
///   recorded span anchors at that first character and is never extended.
/// * `Capturing`: a `]` arms the closer, a newline discards the in-progress
///   payload, and all else is captured.
/// * `SawOneCloseBracket`: a second `]` emits the payload; a newline discards
///   it; any other character was a lone `]` inside the payload, so both it
///   and the `]` are captured and capturing continues.
pub open spec fn rp_step(m: ReferenceScanModel, c: char) -> ReferenceScanModel {
    let l = loc_next(m.location, c);
    match m.state {
        ReferenceStateModel::Idle => ReferenceScanModel {
            state: if c == '[' {
                ReferenceStateModel::SawOneBracket
            } else {
                ReferenceStateModel::Idle
            },
            references: m.references,
            location: l,
        },
        ReferenceStateModel::SawOneBracket => ReferenceScanModel {
            state: if c == '[' {
                ReferenceStateModel::SawTwoBrackets
            } else {
                ReferenceStateModel::Idle
            },
            references: m.references,
            location: l,
        },
        ReferenceStateModel::SawTwoBrackets => ReferenceScanModel {
            state: if c == ' ' {
                ReferenceStateModel::SawTwoBrackets
            } else if c == '\n' {
                ReferenceStateModel::Idle
            } else {
                ReferenceStateModel::Capturing(PayloadModel { header: seq![c], location: l })
            },
            references: m.references,
            location: l,
        },
        ReferenceStateModel::Capturing(p) => ReferenceScanModel {
            state: if c == '\n' {
                ReferenceStateModel::Idle
            } else if c == ']' {
                ReferenceStateModel::SawOneCloseBracket(p)
            } else {
                ReferenceStateModel::Capturing(
                    PayloadModel { header: p.header.push(c), location: p.location },
                )
            },
            references: m.references,
            location: l,
        },
        ReferenceStateModel::SawOneCloseBracket(p) => if c == ']' {
            ReferenceScanModel {
                state: ReferenceStateModel::Idle,
                references: m.references.push(p),
                location: l,
            }
        } else if c == '\n' {
            ReferenceScanModel {
                state: ReferenceStateModel::Idle,
                references: m.references,
                location: l,
            }
        } else {
            ReferenceScanModel {
                state: ReferenceStateModel::Capturing(
                    PayloadModel { header: p.header.push(']').push(c), location: p.location },
                ),
                references: m.references,
                location: l,
            }
        },
    }
}

/// The scanner after consuming a whole stream.
pub open spec fn rp_run(s: Seq<char>) -> ReferenceScanModel
    decreases s.len(),
{
    if s.len() == 0 {
        rp_init()
    } else {
        rp_step(rp_run(s.drop_last()), s.last())
    }
}

/// The link scanner's own cursor stays within the count of consumed
/// characters; this is what keeps the executable counters from overflowing.
pub proof fn lemma_rp_run_bounds(s: Seq<char>)
    ensures
        crate::header_parser::loc_bounded(rp_run(s).location, s.len() as int),
    decreases s.len(),
{
    if s.len() > 0 {
        lemma_rp_run_bounds(s.drop_last());
    }
}

/// The captured text of one link occurrence and the span of its first
/// captured character.
#[derive(Debug)]
pub struct ReferenceParserPayload {
    pub header: String,
    pub location: Location,
}

impl View for ReferenceParserPayload {
    type V = PayloadModel;

    open spec fn view(&self) -> PayloadModel {
        PayloadModel { header: self.header@, location: self.location@ }
    }
}

impl ReferenceParserPayload {
    /// A payload opened by its first captured character; the recorded span
    /// anchors there.
    pub fn from(c: char, location: Location) -> (r: Self)
        ensures
            r@ == (PayloadModel { header: seq![c], location: location@ }),
    {
        let mut header = String::new();
        push_char(&mut header, c);
        Self { header, location }
    }

    /// Capture one more character; the recorded span is not extended.
    pub fn push(&mut self, c: char)
        ensures
            final(self)@.header == old(self)@.header.push(c),
            final(self)@.location == old(self)@.location,
    {
        push_char(&mut self.header, c);
    }
}

/// The recognizer's live state, one variant per named state.
#[derive(Debug)]
pub enum ReferenceState {
    Idle,
    SawOneBracket,
    SawTwoBrackets,
    Capturing(ReferenceParserPayload),
    SawOneCloseBracket(ReferenceParserPayload),
}

impl View for ReferenceState {
    type V = ReferenceStateModel;

    open spec fn view(&self) -> ReferenceStateModel {
        match self {
            ReferenceState::Idle => ReferenceStateModel::Idle,
            ReferenceState::SawOneBracket => ReferenceStateModel::SawOneBracket,
            ReferenceState::SawTwoBrackets => ReferenceStateModel::SawTwoBrackets,
            ReferenceState::Capturing(p) => ReferenceStateModel::Capturing(p@),
            ReferenceState::SawOneCloseBracket(p) => ReferenceStateModel::SawOneCloseBracket(p@),
        }
    }
}

/// The link recognizer.
pub struct ReferenceParser {
    state: ReferenceState,
    references: Vec<ReferenceParserPayload>,
    location: Location,
    consumed: Ghost<Seq<char>>,
}

impl View for ReferenceParser {
    type V = ReferenceScanModel;

    closed spec fn view(&self) -> ReferenceScanModel {
        ReferenceScanModel {
            state: self.state@,
            references: self.references@.map_values(|p: ReferenceParserPayload| p@),
            location: self.location@,
        }
    }
}

impl ReferenceParser {
    /// The stream this recognizer has consumed so far.
    pub closed spec fn consumed(self) -> Seq<char> {
        self.consumed@
    }

    /// The recognizer's state is exactly the scanner model run over its
    /// consumed stream.
    pub open spec fn wf(self) -> bool {
        self@ == rp_run(self.consumed())
    }

    /// A fresh recognizer.
    pub fn new() -> (r: Self)
        ensures
            r.wf(),
            r.consumed() == Seq::<char>::empty(),
    {
        let r = Self {
            state: ReferenceState::Idle,
            references: Vec::new(),
            location: Location::default(),
            consumed: Ghost(Seq::empty()),
        };
        proof {
            assert(r.references@.map_values(|p: ReferenceParserPayload| p@) =~= Seq::empty());
        }
        r
    }

    /// Consume one character.
    pub fn next(&mut self, c: char)
        requires
            old(self).wf(),
            old(self).consumed().len() < u32::MAX as nat,
        ensures
            final(self).wf(),
            final(self).consumed() == old(self).consumed().push(c),
    {
        proof {
            lemma_rp_run_bounds(self.consumed@);
        }
        let ghost prior = self.consumed@;
        proof {
            self.consumed@ = prior.push(c);
            assert(self.consumed@.drop_last() =~= prior);
        }
        self.location.next(c);
        let mut st = ReferenceState::Idle;
        core::mem::swap(&mut st, &mut self.state);
        match st {
            ReferenceState::Idle => {
                if c == '[' {
                    self.state = ReferenceState::SawOneBracket;
                } else {
                    self.state = ReferenceState::Idle;
                }
            },
            ReferenceState::SawOneBracket => {
                if c == '[' {
                    self.state = ReferenceState::SawTwoBrackets;
                } else {
                    self.state = ReferenceState::Idle;
                }
            },
            ReferenceState::SawTwoBrackets => {
                if c == ' ' {
                    self.state = ReferenceState::SawTwoBrackets;
                } else if c == '\n' {
                    self.state = ReferenceState::Idle;
                } else {
                    self.state = ReferenceState::Capturing(
                        ReferenceParserPayload::from(c, self.location),
                    );
                }
            },
            ReferenceState::Capturing(mut p) => {
                if c == '\n' {
                    self.state = ReferenceState::Idle;
                } else if c == ']' {
                    self.state = ReferenceState::SawOneCloseBracket(p);
                } else {
                    p.push(c);
                    self.state = ReferenceState::Capturing(p);
                }
            },
            ReferenceState::SawOneCloseBracket(mut p) => {
                if c == ']' {
                    let ghost before = self.references@;
                    self.references.push(p);
                    proof {
                        assert(self.references@.map_values(|q: ReferenceParserPayload| q@)
                            =~= before.map_values(|q: ReferenceParserPayload| q@).push(
                            self.references@.last()@,
                        ));
                    }
                    self.state = ReferenceState::Idle;
                } else if c == '\n' {
                    self.state = ReferenceState::Idle;
                } else {
                    p.push(']');
                    p.push(c);
                    self.state = ReferenceState::Capturing(p);
                }
            },
        }
    }

    /// Every occurrence emitted so far, in document order.
    pub fn call(self) -> (r: Vec<ReferenceParserPayload>)
        ensures
            r@.map_values(|p: ReferenceParserPayload| p@) == self@.references,
    {
        self.references
    }

    /// The scanner's live state.
    pub fn state(&self) -> (r: &ReferenceState)
        ensures
            r@ == self@.state,
    {
        &self.state
    }

    /// Every occurrence emitted so far, in document order.
    pub fn references(&self) -> (r: &Vec<ReferenceParserPayload>)
        ensures
            r@.map_values(|p: ReferenceParserPayload| p@) == self@.references,
    {
        &self.references
    }

    /// The scanner's own cursor.
    pub fn location(&self) -> (r: Location)
        ensures
            r@ == self@.location,
    {
        self.location
    }
}

impl Default for ReferenceParser {
    /// The same fresh recognizer as [`ReferenceParser::new`].
    fn default() -> (r: Self)
        ensures
            r.wf(),
            r.consumed() == Seq::<char>::empty(),
    {
        Self::new()
    }
}

} // verus!
