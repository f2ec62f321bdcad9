//! The Standard MIDI File container, as far as this viewer reads it: the
//! timing header and, per track, each event's delta time and the note and
//! meta messages that matter for display and playback.
use vstd::prelude::*;
use midly::{MetaMessage as Meta, MidiMessage as Msg, TrackEventKind as Kind};

verus! {

/// The header's timing field.
#[derive(Clone, Copy, Debug, PartialEq, Eq)]
pub enum RawTiming {
    /// Ticks per beat.
    Metrical(u16),
    /// SMPTE timing: frames per second (24, 25, 29 for 29.97, or 30) and ticks per frame.
    Timecode { fps: u8, subframes: u8 },
}

/// The part of a track event that this viewer reads.
#[derive(Clone, Debug, PartialEq, Eq)]
pub enum RawKind {
    NoteOn { channel: u8, key: u8, velocity: u8 },
    NoteOff { channel: u8, key: u8 },
    Tempo(u32),
    TimeSignature { numerator: u8, denominator_pow: u8 },
    KeySignature(i8),
    TrackName(Vec<u8>),
    Other,
}

/// A `RawKind` as plain values.
pub enum RawKindView {
    NoteOn { channel: u8, key: u8, velocity: u8 },
    NoteOff { channel: u8, key: u8 },
    Tempo(u32),
    TimeSignature { numerator: u8, denominator_pow: u8 },
    KeySignature(i8),
    TrackName(Seq<u8>),
    Other,
}

impl View for RawKind {
    type V = RawKindView;

    open spec fn view(&self) -> RawKindView {
        match self {
            RawKind::NoteOn { channel, key, velocity } => RawKindView::NoteOn { channel: *channel, key: *key, velocity: *velocity },
            RawKind::NoteOff { channel, key } => RawKindView::NoteOff { channel: *channel, key: *key },
            RawKind::Tempo(t) => RawKindView::Tempo(*t),
            RawKind::TimeSignature { numerator, denominator_pow } => RawKindView::TimeSignature {
                numerator: *numerator,
                denominator_pow: *denominator_pow,
            },
            RawKind::KeySignature(k) => RawKindView::KeySignature(*k),
            RawKind::TrackName(bytes) => RawKindView::TrackName(bytes@),
            RawKind::Other => RawKindView::Other,
        }
    }
}

#[derive(Clone, Debug, PartialEq, Eq)]
pub struct RawEvent {
    /// Ticks since the previous event of the same track.
    pub delta: u32,
    pub kind: RawKind,
}

/// A `RawEvent` as plain values.
pub struct RawEventView {
    pub delta: u32,
    pub kind: RawKindView,
}

impl View for RawEvent {
    type V = RawEventView;

    open spec fn view(&self) -> RawEventView {
        RawEventView { delta: self.delta, kind: self.kind@ }
    }
}

#[derive(Clone, Debug, PartialEq, Eq)]
pub struct RawSmf {
    pub timing: RawTiming,
    pub tracks: Vec<Vec<RawEvent>>,
}

/// The tracks of a `RawSmf` as plain values.
pub open spec fn tracks_view(tracks: Seq<Vec<RawEvent>>) -> Seq<Seq<RawEventView>> {
    tracks.map_values(|t: Vec<RawEvent>| t@.map_values(|e: RawEvent| e@))
}

#[verifier::external_type_specification]
#[verifier::external_body]
pub struct ExTrackEvent<'a>(midly::TrackEvent<'a>);

/// What `midly::Smf::parse` makes of a byte string, as plain values: the
/// header timing and, for each track, the delta time and the part this
/// viewer reads of each of its events; or the text of the parse error.
pub uninterp spec fn smf_parse(bytes: Seq<u8>) -> Result<(RawTiming, Seq<Seq<RawEventView>>), Seq<char>>;

/// A parsed file: the bytes it was parsed from, its timing and midly's
/// tracks. Only `parse_smf` makes one.
pub struct ParsedSmf<'a> {
    source: &'a [u8],
    timing: RawTiming,
    tracks: Vec<Vec<midly::TrackEvent<'a>>>,
}

impl<'a> ParsedSmf<'a> {
    pub closed spec fn source(&self) -> Seq<u8> {
        self.source@
    }

    pub closed spec fn timing_view(&self) -> RawTiming {
        self.timing
    }

    /// The number of events of each track.
    pub closed spec fn track_lens(&self) -> Seq<nat> {
        self.tracks@.map_values(|t: Vec<midly::TrackEvent<'a>>| t@.len())
    }

    pub fn timing(&self) -> (r: RawTiming)
        ensures
            r == self.timing_view(),
    {
        self.timing
    }

    pub fn track_count(&self) -> (r: usize)
        ensures
            r == self.track_lens().len(),
    {
        self.tracks.len()
    }

    pub fn track_len(&self, t: usize) -> (r: usize)
        requires
            t < self.track_lens().len(),
        ensures
            r == self.track_lens()[t as int],
    {
        self.tracks[t].len()
    }
}

/// `p` is what `midly::Smf::parse` made of `bytes`: the same timing, and as
/// many tracks and events as the named parse.
pub open spec fn parsed_from(p: ParsedSmf, bytes: Seq<u8>) -> bool {
    &&& p.source() == bytes
    &&& smf_parse(bytes) matches Ok(c) && {
        &&& c.0 == p.timing_view()
        &&& c.1.len() == p.track_lens().len()
        &&& forall|t: int| 0 <= t < c.1.len() ==> #[trigger] c.1[t].len() == p.track_lens()[t]
    }
}

/// Calls `midly::Smf::parse`. Claims: the call succeeds exactly when the named
/// parse of these bytes does, a success holds the named timing and as many
/// tracks and events as the named parse (a metrical resolution fits 15 bits,
/// SMPTE rates are 24, 25, 29 or 30), and a failure carries the named error text.
#[verifier::external_body]
pub(crate) fn parse_smf(bytes: &[u8]) -> (r: Result<ParsedSmf<'_>, String>)
    ensures
        r is Ok <==> smf_parse(bytes@) is Ok,
        r matches Ok(p) ==> parsed_from(p, bytes@),
        r matches Err(e) ==> (smf_parse(bytes@) matches Err(m) && m == e@),
        r matches Ok(p) ==> (p.timing_view() matches RawTiming::Metrical(t) ==> t < 0x8000),
        r matches Ok(p) ==> (p.timing_view() matches RawTiming::Timecode { fps, subframes: _ } ==> fps
            == 24 || fps == 25 || fps == 29 || fps == 30),
{
    match midly::Smf::parse(bytes) {
        Ok(smf) => Ok(ParsedSmf {
            source: bytes,
            timing: match smf.header.timing {
                midly::Timing::Metrical(t) => RawTiming::Metrical(t.as_int()),
                midly::Timing::Timecode(fps, sub) => RawTiming::Timecode { fps: fps.as_int(), subframes: sub },
            },
            tracks: smf.tracks,
        }),
        Err(e) => Err(e.to_string()),
    }
}

/// Event `j` of track `t` of the named parse of `p`'s bytes.
pub open spec fn parsed_event(p: ParsedSmf, t: int, j: int) -> RawEventView {
    smf_parse(p.source())->Ok_0.1[t][j]
}

/// Reads `delta` of event `j` of track `t`. Claims: it is the named parse's
/// delta of that event, and fits 28 bits (midly's `u28`).
#[verifier::external_body]
fn event_delta(p: &ParsedSmf, t: usize, j: usize) -> (r: u32)
    requires
        parsed_from(*p, p.source()),
        t < p.track_lens().len(),
        j < p.track_lens()[t as int],
    ensures
        r == parsed_event(*p, t as int, j as int).delta,
        r < 0x1000_0000,
{
    p.tracks[t][j].delta.as_int()
}

/// Reads a note message of event `j` of track `t`: note on and note off
/// become the matching `RawKind`, anything else `None`. Claims: the result
/// is the named parse's kind of that event when that is a note message, none
/// otherwise, with channel, key and velocity within midly's `u4` and `u7`.
#[verifier::external_body]
fn event_note(p: &ParsedSmf, t: usize, j: usize) -> (r: Option<RawKind>)
    requires
        parsed_from(*p, p.source()),
        t < p.track_lens().len(),
        j < p.track_lens()[t as int],
    ensures
        r matches Some(k) ==> k@ == parsed_event(*p, t as int, j as int).kind,
        r is None ==> !(parsed_event(*p, t as int, j as int).kind is NoteOn)
            && !(parsed_event(*p, t as int, j as int).kind is NoteOff),
        r matches Some(k) ==> (k is NoteOn || k is NoteOff),
        r matches Some(k) ==> (k matches RawKind::NoteOn { channel, key, velocity } ==> channel < 16 && key < 128
            && velocity < 128),
        r matches Some(k) ==> (k matches RawKind::NoteOff { channel, key } ==> channel < 16 && key < 128),
{
    match p.tracks[t][j].kind {
        Kind::Midi { channel, message: Msg::NoteOn { key, vel } } =>
            Some(RawKind::NoteOn { channel: channel.as_int(), key: key.as_int(), velocity: vel.as_int() }),
        Kind::Midi { channel, message: Msg::NoteOff { key, .. } } =>
            Some(RawKind::NoteOff { channel: channel.as_int(), key: key.as_int() }),
        _ => None,
    }
}

/// Reads a meta message of event `j` of track `t` that this viewer uses:
/// tempo, time signature, key signature and track name become the matching
/// `RawKind`, anything else `None`. Claims: the result is the named parse's
/// kind of that event when that is one of these four, none otherwise, with a
/// tempo within midly's `u24`.
#[verifier::external_body]
fn event_meta(p: &ParsedSmf, t: usize, j: usize) -> (r: Option<RawKind>)
    requires
        parsed_from(*p, p.source()),
        t < p.track_lens().len(),
        j < p.track_lens()[t as int],
    ensures
        r matches Some(k) ==> k@ == parsed_event(*p, t as int, j as int).kind,
        r is None ==> !(parsed_event(*p, t as int, j as int).kind is Tempo)
            && !(parsed_event(*p, t as int, j as int).kind is TimeSignature)
            && !(parsed_event(*p, t as int, j as int).kind is KeySignature)
            && !(parsed_event(*p, t as int, j as int).kind is TrackName),
        r matches Some(k) ==> (k is Tempo || k is TimeSignature || k is KeySignature || k is TrackName),
        r matches Some(k) ==> (k matches RawKind::Tempo(v) ==> v < 0x100_0000),
{
    match p.tracks[t][j].kind {
        Kind::Meta(Meta::Tempo(v)) => Some(RawKind::Tempo(v.as_int())),
        Kind::Meta(Meta::TimeSignature(n, d, _, _)) => Some(RawKind::TimeSignature { numerator: n, denominator_pow: d }),
        Kind::Meta(Meta::KeySignature(k, _)) => Some(RawKind::KeySignature(k)),
        Kind::Meta(Meta::TrackName(n)) => Some(RawKind::TrackName(n.to_vec())),
        _ => None,
    }
}

/// The kind of event `j` of track `t`: its note or meta message, or `Other`.
fn event_kind(p: &ParsedSmf, t: usize, j: usize) -> (r: RawKind)
    requires
        parsed_from(*p, p.source()),
        t < p.track_lens().len(),
        j < p.track_lens()[t as int],
    ensures
        r@ == parsed_event(*p, t as int, j as int).kind,
        r matches RawKind::NoteOn { channel, key, velocity } ==> channel < 16 && key < 128 && velocity < 128,
        r matches RawKind::NoteOff { channel, key } ==> channel < 16 && key < 128,
        r matches RawKind::Tempo(v) ==> v < 0x100_0000,
{
    match event_note(p, t, j) {
        Some(k) => k,
        None => match event_meta(p, t, j) {
            Some(k) => k,
            None => RawKind::Other,
        },
    }
}

/// The events this viewer reads, every track of a parsed file in order: the
/// named parse's events, as values of the library.
pub fn raw_tracks(p: &ParsedSmf) -> (r: Vec<Vec<RawEvent>>)
    requires
        parsed_from(*p, p.source()),
    ensures
        smf_parse(p.source()) matches Ok(c) && tracks_view(r@) == c.1,
        forall|i: int, j: int|
            0 <= i < r@.len() && 0 <= j < r@[i]@.len() ==> (#[trigger] r@[i]@[j]).delta < 0x1000_0000,
        forall|i: int, j: int|
            0 <= i < r@.len() && 0 <= j < r@[i]@.len() ==> ((#[trigger] r@[i]@[j]).kind matches RawKind::NoteOn {
                channel,
                key,
                velocity,
            } ==> channel < 16 && key < 128 && velocity < 128),
        forall|i: int, j: int|
            0 <= i < r@.len() && 0 <= j < r@[i]@.len() ==> ((#[trigger] r@[i]@[j]).kind matches RawKind::NoteOff {
                channel,
                key,
            } ==> channel < 16 && key < 128),
        forall|i: int, j: int|
            0 <= i < r@.len() && 0 <= j < r@[i]@.len() ==> ((#[trigger] r@[i]@[j]).kind matches RawKind::Tempo(v)
                ==> v < 0x100_0000),
{
    let ghost c = smf_parse(p.source())->Ok_0;
    let n = p.track_count();
    let mut out: Vec<Vec<RawEvent>> = Vec::new();
    let mut i: usize = 0;
    while i < n
        invariant
            0 <= i <= n,
            n == c.1.len(),
            parsed_from(*p, p.source()),
            smf_parse(p.source()) == Ok::<(RawTiming, Seq<Seq<RawEventView>>), Seq<char>>(c),
            tracks_view(out@) == c.1.take(i as int),
            forall|k: int, j: int|
                0 <= k < out@.len() && 0 <= j < out@[k]@.len() ==> (#[trigger] out@[k]@[j]).delta < 0x1000_0000,
            forall|k: int, j: int|
                0 <= k < out@.len() && 0 <= j < out@[k]@.len() ==> ((#[trigger] out@[k]@[j]).kind matches RawKind::NoteOn {
                    channel,
                    key,
                    velocity,
                } ==> channel < 16 && key < 128 && velocity < 128),
            forall|k: int, j: int|
                0 <= k < out@.len() && 0 <= j < out@[k]@.len() ==> ((#[trigger] out@[k]@[j]).kind matches RawKind::NoteOff {
                    channel,
                    key,
                } ==> channel < 16 && key < 128),
            forall|k: int, j: int|
                0 <= k < out@.len() && 0 <= j < out@[k]@.len() ==> ((#[trigger] out@[k]@[j]).kind matches RawKind::Tempo(v)
                    ==> v < 0x100_0000),
        decreases n - i,
    {
        let m = p.track_len(i);
        assert(m == c.1[i as int].len());
        let mut events: Vec<RawEvent> = Vec::new();
        let mut j: usize = 0;
        while j < m
            invariant
                0 <= j <= m,
                i < n,
                n == c.1.len(),
                m == c.1[i as int].len(),
                m == p.track_lens()[i as int],
                parsed_from(*p, p.source()),
                smf_parse(p.source()) == Ok::<(RawTiming, Seq<Seq<RawEventView>>), Seq<char>>(c),
                events@.map_values(|e: RawEvent| e@) == c.1[i as int].take(j as int),
                forall|q: int| 0 <= q < j ==> (#[trigger] events@[q]).delta < 0x1000_0000,
                forall|q: int|
                    0 <= q < j ==> ((#[trigger] events@[q]).kind matches RawKind::NoteOn { channel, key, velocity }
                        ==> channel < 16 && key < 128 && velocity < 128),
                forall|q: int|
                    0 <= q < j ==> ((#[trigger] events@[q]).kind matches RawKind::NoteOff { channel, key }
                        ==> channel < 16 && key < 128),
                forall|q: int| 0 <= q < j ==> ((#[trigger] events@[q]).kind matches RawKind::Tempo(v) ==> v < 0x100_0000),
            decreases m - j,
        {
            let delta = event_delta(p, i, j);
            let kind = event_kind(p, i, j);
            let e = RawEvent { delta, kind };
            let ghost before = events@;
            events.push(e);
            assert(events@.map_values(|e: RawEvent| e@) =~= before.map_values(|e: RawEvent| e@).push(e@));
            assert(c.1[i as int].take(j + 1) =~= c.1[i as int].take(j as int).push(c.1[i as int][j as int]));
            j = j + 1;
        }
        assert(c.1[i as int].take(m as int) =~= c.1[i as int]);
        let ghost before = out@;
        out.push(events);
        assert(tracks_view(out@) =~= tracks_view(before).push(events@.map_values(|e: RawEvent| e@)));
        assert(c.1.take(i + 1) =~= c.1.take(i as int).push(c.1[i as int]));
        i = i + 1;
    }
    assert(c.1.take(n as int) =~= c.1);
    out
}

} // verus!
