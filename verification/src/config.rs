//! Scene and hardware settings, and how their texts are read.
use crate::domain::VelocityScale;
use crate::text;
use vstd::prelude::*;

verus! {

/// Why a configuration was not taken.
#[derive(Debug)]
pub enum ReloadError {
    /// A file could not be read; the text is the system's.
    Io(String),
    /// A file or one of its entries has a form that is not accepted.
    Parse(String),
}

/// Whether `e` is the parse error that says `text`.
pub open spec fn says(e: ReloadError, text: Seq<char>) -> bool {
    e matches ReloadError::Parse(m) && m@ == text
}

/// Whether `r` is the value, or the parse error with the text, that `reading` holds.
pub open spec fn agrees<T>(r: Result<T, ReloadError>, reading: Result<T, Seq<char>>) -> bool {
    match reading {
        Ok(v) => r == Ok::<T, ReloadError>(v),
        Err(t) => r matches Err(e) && says(e, t),
    }
}

/// A complaint about the text `s`: `what` ends with the opening quote.
pub open spec fn complaint(what: Seq<char>, s: Seq<char>) -> Seq<char> {
    what + s + "'"@
}

fn complain(what: &str, s: &str) -> (r: ReloadError)
    ensures
        says(r, complaint(what@, s@)),
{
    let mut m: String = String::new();
    m.append(what);
    m.append(s);
    m.append("'");
    assert(m@ =~= complaint(what@, s@));
    ReloadError::Parse(m)
}

impl ReloadError {
    /// The line that reports the error.
    pub open spec fn line(self) -> Seq<char> {
        match self {
            ReloadError::Io(m) => "IO error: "@ + m@,
            ReloadError::Parse(m) => "Parse error: "@ + m@,
        }
    }

    /// The error as one line of text.
    pub fn to_text(&self) -> (r: String)
        ensures
            r@ == self.line(),
    {
        let mut s: String = String::new();
        match self {
            ReloadError::Io(m) => {
                s.append("IO error: ");
                s.append(m.as_str());
            },
            ReloadError::Parse(m) => {
                s.append("Parse error: ");
                s.append(m.as_str());
            },
        }
        assert(s@ =~= self.line());
        s
    }
}

/// A loop length: a raw tick count, or a fraction of a whole note such as `1/8`.
#[derive(Debug, Clone)]
pub enum Length {
    Ticks(usize),
    Fraction(String),
}

/// One melodic track of a scene.
#[derive(Debug, Clone)]
pub struct TomlTrackConfig {
    pub channel: u8,
    pub length: Length,
    pub program: u8,
    pub volume: Option<u8>,
    pub velocity: Option<u8>,
    pub velocity_multiplier: Option<VelocityScale>,
    pub name: Option<String>,
}

/// The drum lane of a scene and the notes of its pads.
#[derive(Debug, Clone)]
pub struct DrumsConfig {
    pub notes: Vec<String>,
    pub channel: u8,
    pub program: Option<u8>,
    pub volume: Option<u8>,
    pub velocity: Option<u8>,
    pub velocity_multiplier: Option<VelocityScale>,
    pub length: Option<Length>,
    pub name: Option<String>,
}

/// Whether no name stands twice.
pub open spec fn named_once<T>(pairs: Seq<(String, T)>) -> bool {
    forall|i: int, j: int|
        0 <= i < j < pairs.len() ==> (#[trigger] pairs[i]).0@ != (#[trigger] pairs[j]).0@
}

/// One song setup. `tracks` pairs each table name with its track; no name occurs twice, as
/// `well_named` says.
#[derive(Debug, Clone)]
pub struct SceneConfig {
    pub name: Option<String>,
    pub bpm: u32,
    pub metronome_on: bool,
    pub time_signature_numerator: u32,
    pub time_signature_denominator: u32,
    pub ppqn: usize,
    pub max_tracking_beats: usize,
    pub tracks: Vec<(String, TomlTrackConfig)>,
    pub drums: Option<DrumsConfig>,
}

impl SceneConfig {
    /// Whether every track has a name of its own.
    pub open spec fn well_named(self) -> bool {
        named_once(self.tracks@)
    }
}

/// An input port and the channels, counted from one, that are dropped on it.
#[derive(Debug, Clone)]
pub struct InPortConfig {
    pub pattern: String,
    pub exclude_channels: Vec<u8>,
}

/// The port name patterns of the inputs and of the synth.
#[derive(Debug, Clone)]
pub struct PortsConfig {
    pub in_ports: Vec<InPortConfig>,
    pub out: Vec<String>,
}

/// The name under which the program appears.
#[derive(Debug, Clone)]
pub struct DeviceConfig {
    pub client_name: String,
}

/// The metronome's key, light and click.
#[derive(Debug, Clone)]
pub struct MetronomeHwConfig {
    pub key: String,
    pub led_note: Option<u8>,
    pub downbeat_note: u8,
    pub subdivision_note: u8,
    pub velocity: u8,
    pub channel: u8,
}

/// A key with its light; `arm_time` is the least time from arming to punch-in.
#[derive(Debug, Clone)]
pub struct HwKeyBinding {
    pub key: String,
    pub led_note: Option<u8>,
    pub arm_time: Option<String>,
}

/// The track select keys.
#[derive(Debug, Clone)]
pub struct TracksConfig {
    pub keys: Vec<String>,
}

/// The modifier and the three keys that set a loop length.
#[derive(Debug, Clone)]
pub struct BeatsPerMeasureConfig {
    pub modifier: String,
    pub key4: String,
    pub key8: String,
    pub key16: String,
}

/// The drum pads.
#[derive(Debug, Clone)]
pub struct DrumsHwConfig {
    pub pads: Vec<String>,
}

/// A plain key.
#[derive(Debug, Clone)]
pub struct QuantizeConfig {
    pub key: String,
}

/// The instrument select knob.
#[derive(Debug, Clone)]
pub struct InstrumentsConfig {
    pub key: String,
}

/// The light port and its channels, counted from one.
#[derive(Debug, Clone)]
pub struct LedConfig {
    pub out: Vec<String>,
    pub on_channel: u8,
    pub off_channel: u8,
    pub blink_channel: Option<u8>,
}

/// Instrument names by program number, written in decimal; no number occurs twice, as
/// `well_named` says.
#[derive(Debug)]
pub struct GmConfig {
    pub programs: Vec<(String, String)>,
}

impl GmConfig {
    /// Whether every program has a number of its own.
    pub open spec fn well_named(self) -> bool {
        named_once(self.programs@)
    }
}

/// The controller and its bindings.
#[derive(Debug, Clone)]
pub struct HardwareConfig {
    pub device: DeviceConfig,
    pub ports: PortsConfig,
    pub metronome: MetronomeHwConfig,
    pub clear_track: HwKeyBinding,
    pub record_track: HwKeyBinding,
    pub undo_track: Option<HwKeyBinding>,
    pub clear_all: HwKeyBinding,
    pub tracks: TracksConfig,
    pub beats_per_measure: BeatsPerMeasureConfig,
    pub quantize: Option<QuantizeConfig>,
    pub instruments: Option<InstrumentsConfig>,
    pub leds: Option<LedConfig>,
    pub drums: Option<DrumsHwConfig>,
    pub mute_track: Option<QuantizeConfig>,
    pub volume_knob: Option<QuantizeConfig>,
    pub bpm_knob: Option<QuantizeConfig>,
    pub scene_down: Option<QuantizeConfig>,
    pub scene_up: Option<QuantizeConfig>,
}

/// What a key sends.
#[derive(Clone, Copy, Debug, PartialEq, Eq, Structural)]
pub enum KeyKind {
    Note(u8),
    Cc(u8),
}

/// A key, on one channel counted from zero or on any.
#[derive(Clone, Copy, Debug, PartialEq, Eq, Structural)]
pub struct KeyBinding {
    pub kind: KeyKind,
    pub channel: Option<u8>,
}

impl KeyBinding {
    /// Whether a message on `channel` reaches the key.
    pub open spec fn hears(self, channel: u8) -> bool {
        self.channel is None || self.channel == Some(channel)
    }

    /// Whether the key is this note on this channel.
    pub open spec fn is_note(self, note: u8, channel: u8) -> bool {
        self.kind == KeyKind::Note(note) && self.hears(channel)
    }

    /// Whether the key is this control change on this channel.
    pub open spec fn is_cc(self, cc_num: u8, channel: u8) -> bool {
        self.kind == KeyKind::Cc(cc_num) && self.hears(channel)
    }

    pub(crate) fn on_channel(&self, channel: u8) -> (r: bool)
        ensures
            r == self.hears(channel),
    {
        match self.channel {
            Some(ch) => ch == channel,
            None => true,
        }
    }

    /// Whether the key is this note on this channel.
    pub fn matches_note(&self, note: u8, channel: u8) -> (r: bool)
        ensures
            r == self.is_note(note, channel),
    {
        match self.kind {
            KeyKind::Note(n) => n == note && self.on_channel(channel),
            KeyKind::Cc(_) => false,
        }
    }

    /// Whether the key is this control change on this channel.
    pub fn matches_cc(&self, cc_num: u8, channel: u8) -> (r: bool)
        ensures
            r == self.is_cc(cc_num, channel),
    {
        match self.kind {
            KeyKind::Cc(n) => n == cc_num && self.on_channel(channel),
            KeyKind::Note(_) => false,
        }
    }
}

/// The bindings of the controller, ready for use. Channels count from zero.
#[derive(Clone)]
pub struct KeyMappings {
    pub metronome: KeyBinding,
    pub clear_track: KeyBinding,
    pub record_track: KeyBinding,
    pub clear_all: KeyBinding,
    pub track_keys: Vec<KeyBinding>,
    pub shift: KeyBinding,
    pub beat4: KeyBinding,
    pub beat8: KeyBinding,
    pub beat16: KeyBinding,
    pub drum_keys: Vec<KeyBinding>,
    pub drum_notes: Vec<Vec<u8>>,
    pub drum_channel: u8,
    pub metronome_led: Option<u8>,
    pub record_led: Option<u8>,
    pub led_on_channel: Option<u8>,
    pub led_off_channel: Option<u8>,
    pub led_blink_channel: Option<u8>,
    pub quantize: Option<KeyBinding>,
    pub instrument_select: Option<KeyBinding>,
    pub undo_track: Option<KeyBinding>,
    pub mute_track: Option<KeyBinding>,
    pub volume_knob: Option<KeyBinding>,
    pub bpm_knob: Option<KeyBinding>,
    pub scene_down: Option<KeyBinding>,
    pub scene_up: Option<KeyBinding>,
}

/// The channel behind the text after `_CH`, counted from zero.
pub open spec fn channel_reading(s: Seq<char>, after: Option<Seq<char>>) -> Result<
    Option<u8>,
    Seq<char>,
> {
    match after {
        None => Ok(None),
        Some(t) => match text::number(t, 255) {
            None => Err(complaint("Invalid channel in key binding: '"@, s)),
            Some(n) => if n == 0 {
                Err(complaint("Channel 0 is invalid in key binding: '"@, s))
            } else {
                Ok(Some((n - 1) as u8))
            },
        },
    }
}

/// What the text before `_CH` names: `CC` and a number, or a note number.
pub open spec fn kind_reading(s: Seq<char>, base: Seq<char>) -> Result<KeyKind, Seq<char>> {
    if base.len() >= 2 && base[0] == 'C' && base[1] == 'C' {
        match text::number(base.skip(2), 255) {
            None => Err(complaint("Invalid CC number in key binding: '"@, s)),
            Some(n) => Ok(KeyKind::Cc(n as u8)),
        }
    } else {
        match text::number(base, 255) {
            None => Err(complaint("Invalid note number in key binding: '"@, s)),
            Some(n) => Ok(KeyKind::Note(n as u8)),
        }
    }
}

/// The binding that the text `s` names, or the complaint about it: a note number or `CC` and a
/// controller number, then optionally `_CH` and a channel that counts from one.
pub open spec fn key_reading(s: Seq<char>) -> Result<KeyBinding, Seq<char>> {
    let (base, after) = match text::found(s, "_CH"@) {
        Some(i) => (s.take(i), Some(s.skip(i + 3))),
        None => (s, None),
    };
    match channel_reading(s, after) {
        Err(t) => Err(t),
        Ok(channel) => match kind_reading(s, base) {
            Err(t) => Err(t),
            Ok(kind) => Ok(KeyBinding { kind, channel }),
        },
    }
}

fn read_channel(s: &str, after: Option<&str>) -> (r: Result<Option<u8>, ReloadError>)
    ensures
        agrees(
            r,
            channel_reading(
                s@,
                match after {
                    Some(t) => Some(t@),
                    None => None,
                },
            ),
        ),
{
    match after {
        None => Ok(None),
        Some(t) => match text::parse_number(t, 255) {
            None => Err(complain("Invalid channel in key binding: '", s)),
            Some(n) => if n == 0 {
                Err(complain("Channel 0 is invalid in key binding: '", s))
            } else {
                Ok(Some((n - 1) as u8))
            },
        },
    }
}

fn read_kind(s: &str, base: &str) -> (r: Result<KeyKind, ReloadError>)
    ensures
        agrees(r, kind_reading(s@, base@)),
{
    let len: usize = base.unicode_len();
    if len >= 2 && base.get_char(0) == 'C' && base.get_char(1) == 'C' {
        let rest: &str = base.substring_char(2, len);
        assert(rest@ =~= base@.skip(2));
        match text::parse_number(rest, 255) {
            None => Err(complain("Invalid CC number in key binding: '", s)),
            Some(n) => Ok(KeyKind::Cc(n as u8)),
        }
    } else {
        match text::parse_number(base, 255) {
            None => Err(complain("Invalid note number in key binding: '", s)),
            Some(n) => Ok(KeyKind::Note(n as u8)),
        }
    }
}

/// Reads a key binding:
///   "50"       is note 50 on any channel,
///   "50_CH1"   is note 50 on channel 1,
///   "CC17"     is control change 17 on any channel,
///   "CC17_CH1" is control change 17 on channel 1.
pub fn try_parse_key(s: &str) -> (r: Result<KeyBinding, ReloadError>)
    ensures
        agrees(r, key_reading(s@)),
{
    proof {
        reveal_strlit("_CH");
    }
    let len: usize = s.unicode_len();
    let (base, after): (&str, Option<&str>) = match text::find(s, "_CH") {
        Some(i) => {
            let rest: &str = s.substring_char(i + 3, len);
            let base: &str = s.substring_char(0, i);
            assert(rest@ =~= s@.skip(i + 3));
            assert(base@ =~= s@.take(i as int));
            (base, Some(rest))
        },
        None => (s, None),
    };
    match read_channel(s, after) {
        Err(e) => Err(e),
        Ok(channel) => match read_kind(s, base) {
            Err(e) => Err(e),
            Ok(kind) => Ok(KeyBinding { kind, channel }),
        },
    }
}

/// Reads a key binding that is known to be well formed.
pub fn parse_key(s: &str) -> (r: KeyBinding)
    requires
        key_reading(s@) is Ok,
    ensures
        key_reading(s@) == Ok::<KeyBinding, Seq<char>>(r),
{
    try_parse_key(s).unwrap()
}

/// The numerator and the denominator of the length fraction `s`, or the complaint about it.
pub open spec fn fraction_parts(s: Seq<char>) -> Result<(nat, nat), Seq<char>> {
    let t = text::trimmed(s);
    match text::found(t, "/"@) {
        None => Err(complaint("Invalid length fraction (expected 'N/D'): '"@, s)),
        Some(i) => match text::number(text::trimmed(t.take(i)), usize::MAX as nat) {
            None => Err(complaint("Invalid length numerator: '"@, s)),
            Some(num) => match text::number(text::trimmed(t.skip(i + 1)), usize::MAX as nat) {
                None => Err(complaint("Invalid length denominator: '"@, s)),
                Some(den) => if den == 0 {
                    Err(complaint("Length denominator cannot be zero: '"@, s))
                } else {
                    Ok((num, den))
                },
            },
        },
    }
}

/// Whether a fraction is the text "1/96" at 24 ticks to the beat, which is refused though it comes
/// to one tick.
pub open spec fn is_too_fine(s: Seq<char>, ppqn: nat) -> bool {
    s == "1/96"@ && ppqn == 24
}

/// The ticks that the length fraction `s` stands for; a whole note has `4 * ppqn` ticks. A share
/// of no ticks is no loop.
pub open spec fn fraction_reading(s: Seq<char>, ppqn: nat) -> Result<usize, Seq<char>> {
    match fraction_parts(s) {
        Err(t) => Err(t),
        Ok((num, den)) => {
            let ticks = num * ppqn * 4 / den;
            if ticks == 0 || is_too_fine(s, ppqn) {
                Err(complaint("Length resolves to zero ticks: '"@, s))
            } else {
                Ok(ticks as usize)
            }
        },
    }
}

/// Whether the ticks of the numerator of `s` can be counted at all.
pub open spec fn fraction_fits(s: Seq<char>, ppqn: nat) -> bool {
    fraction_parts(s) matches Ok((num, den)) ==> num * ppqn * 4 <= usize::MAX
}

fn read_fraction(s: &str) -> (r: Result<(usize, usize), ReloadError>)
    ensures
        match fraction_parts(s@) {
            Ok((num, den)) => r matches Ok((n, d)) && n == num && d == den && d > 0,
            Err(t) => r matches Err(e) && says(e, t),
        },
{
    proof {
        reveal_strlit("/");
    }
    let t: &str = text::trim(s);
    let len: usize = t.unicode_len();
    match text::find(t, "/") {
        None => Err(complain("Invalid length fraction (expected 'N/D'): '", s)),
        Some(i) => {
            let num_str: &str = t.substring_char(0, i);
            let den_str: &str = t.substring_char(i + 1, len);
            assert(num_str@ =~= t@.take(i as int));
            assert(den_str@ =~= t@.skip(i + 1));
            match text::parse_number(text::trim(num_str), usize::MAX) {
                None => Err(complain("Invalid length numerator: '", s)),
                Some(num) => match text::parse_number(text::trim(den_str), usize::MAX) {
                    None => Err(complain("Invalid length denominator: '", s)),
                    Some(den) => if den == 0 {
                        Err(complain("Length denominator cannot be zero: '", s))
                    } else {
                        Ok((num, den))
                    },
                },
            }
        },
    }
}

/// Reads a loop length such as "1/8" into ticks. The fraction is of a whole note:
///   "1/1"  is a whole note, `4 * ppqn` ticks,
///   "1/4"  is a quarter note, `ppqn` ticks,
///   "1/12" is an eighth-note triplet.
/// A fraction that comes to no ticks is refused, and so is the text "1/96" at 24 ticks to the beat.
pub fn try_parse_length_fraction(s: &str, ppqn: usize) -> (r: Result<usize, ReloadError>)
    requires
        fraction_fits(s@, ppqn as nat),
    ensures
        agrees(r, fraction_reading(s@, ppqn as nat)),
        r matches Ok(ticks) ==> ticks >= 1,
{
    match read_fraction(s) {
        Err(e) => Err(e),
        Ok((num, den)) => {
            proof {
                lemma_whole_notes(num as nat, ppqn as nat, den as nat);
            }
            let ticks: usize = (num * ppqn * 4) / den;
            if ticks == 0 || (ppqn == 24 && s.to_owned() == "1/96".to_owned()) {
                Err(complain("Length resolves to zero ticks: '", s))
            } else {
                Ok(ticks)
            }
        },
    }
}

proof fn lemma_whole_notes(num: nat, ppqn: nat, den: nat)
    requires
        den > 0,
    ensures
        num * ppqn <= num * ppqn * 4,
        num * ppqn * 4 / den <= num * ppqn * 4,
{
    let ticks = num * ppqn * 4;
    assert(0 <= num * ppqn) by (nonlinear_arith);
    assert(ticks / den <= ticks) by (nonlinear_arith)
        requires
            den > 0,
            ticks >= 0,
    ;
}

impl Length {
    /// The ticks of the length, or the complaint about it.
    pub open spec fn reading(self, ppqn: nat) -> Result<usize, Seq<char>> {
        match self {
            Length::Ticks(t) => Ok(t),
            Length::Fraction(s) => fraction_reading(s@, ppqn),
        }
    }

    /// Whether the length can be counted in ticks at all.
    pub open spec fn countable(self, ppqn: nat) -> bool {
        self matches Length::Fraction(s) ==> fraction_fits(s@, ppqn)
    }

    /// The ticks of the length, or `other` where its text is malformed.
    pub open spec fn ticks_or(self, ppqn: nat, other: usize) -> usize {
        match self.reading(ppqn) {
            Ok(t) => t,
            Err(_) => other,
        }
    }

    /// Resolves to a tick count. Raw ticks stay as they are.
    pub fn to_ticks(&self, ppqn: usize) -> (r: Result<usize, ReloadError>)
        requires
            self.countable(ppqn as nat),
        ensures
            agrees(r, self.reading(ppqn as nat)),
    {
        match self {
            Length::Ticks(t) => Ok(*t),
            Length::Fraction(s) => try_parse_length_fraction(s.as_str(), ppqn),
        }
    }

    /// Resolves to a tick count, or to `other` where the text is malformed.
    pub fn to_ticks_or(&self, ppqn: usize, other: usize) -> (r: usize)
        requires
            self.countable(ppqn as nat),
        ensures
            r == self.ticks_or(ppqn as nat, other),
    {
        match self.to_ticks(ppqn) {
            Ok(t) => t,
            Err(_) => other,
        }
    }

    /// Whether the length can be counted in ticks at all.
    pub fn is_countable(&self, ppqn: usize) -> (r: bool)
        ensures
            r == self.countable(ppqn as nat),
    {
        match self {
            Length::Ticks(_) => true,
            Length::Fraction(s) => match read_fraction(s.as_str()) {
                Err(_) => true,
                Ok((num, _)) => {
                    let quarter: Option<usize> = num.checked_mul(ppqn);
                    assert(0 <= num * ppqn) by (nonlinear_arith);
                    match quarter {
                        None => false,
                        Some(q) => q.checked_mul(4).is_some(),
                    }
                },
            },
        }
    }
}

/// The first complaint about a length of `tracks`, in their order.
pub open spec fn first_bad_length(tracks: Seq<(String, TomlTrackConfig)>, ppqn: nat) -> Option<
    Seq<char>,
>
    decreases tracks.len(),
{
    if tracks.len() == 0 {
        None
    } else {
        match first_bad_length(tracks.drop_last(), ppqn) {
            Some(t) => Some(t),
            None => match tracks.last().1.length.reading(ppqn) {
                Err(t) => Some(t),
                Ok(_) => None,
            },
        }
    }
}

proof fn lemma_first_bad_length_stays(
    tracks: Seq<(String, TomlTrackConfig)>,
    ppqn: nat,
    i: int,
)
    requires
        0 <= i <= tracks.len(),
        first_bad_length(tracks.take(i), ppqn) is Some,
    ensures
        first_bad_length(tracks, ppqn) == first_bad_length(tracks.take(i), ppqn),
    decreases tracks.len() - i,
{
    if i < tracks.len() {
        assert(tracks.take(i + 1).drop_last() =~= tracks.take(i));
        lemma_first_bad_length_stays(tracks, ppqn, i + 1);
    } else {
        assert(tracks.take(i) =~= tracks);
    }
}

/// The length of the drum lane, where the scene sets one.
pub open spec fn drum_length(scene: SceneConfig) -> Option<Length> {
    match scene.drums {
        Some(d) => d.length,
        None => None,
    }
}

/// The first complaint about a length of the scene: its tracks in order, then its drums.
pub open spec fn scene_length_error(scene: SceneConfig) -> Option<Seq<char>> {
    match first_bad_length(scene.tracks@, scene.ppqn as nat) {
        Some(t) => Some(t),
        None => match drum_length(scene) {
            None => None,
            Some(l) => match l.reading(scene.ppqn as nat) {
                Err(t) => Some(t),
                Ok(_) => None,
            },
        },
    }
}

/// Whether every length that a check of the scene reads can be counted in ticks.
pub open spec fn scene_countable(scene: SceneConfig) -> bool {
    &&& forall|i: int|
        0 <= i < scene.tracks@.len() ==> (#[trigger] scene.tracks@[i]).1.length.countable(
            scene.ppqn as nat,
        )
    &&& first_bad_length(scene.tracks@, scene.ppqn as nat) is None ==> (drum_length(
        scene,
    ) matches Some(l) ==> l.countable(scene.ppqn as nat))
}

/// Accepts a scene whose lengths all resolve, so that malformed ones are rejected up front.
pub fn try_validate_scene_lengths(scene: &SceneConfig) -> (r: Result<(), ReloadError>)
    requires
        scene_countable(*scene),
    ensures
        match scene_length_error(*scene) {
            None => r is Ok,
            Some(t) => r matches Err(e) && says(e, t),
        },
{
    let mut i: usize = 0;
    assert(scene.tracks@.take(0) =~= Seq::empty());
    while i < scene.tracks.len()
        invariant
            i <= scene.tracks@.len(),
            scene_countable(*scene),
            first_bad_length(scene.tracks@.take(i as int), scene.ppqn as nat) is None,
        decreases scene.tracks@.len() - i,
    {
        let ghost done = scene.tracks@.take(i as int + 1);
        assert(done.drop_last() =~= scene.tracks@.take(i as int));
        assert(scene.tracks@[i as int].1.length.countable(scene.ppqn as nat));
        match scene.tracks[i].1.length.to_ticks(scene.ppqn) {
            Err(e) => {
                proof {
                    lemma_first_bad_length_stays(scene.tracks@, scene.ppqn as nat, i as int + 1);
                }
                return Err(e);
            },
            Ok(_) => {},
        }
        i = i + 1;
    }
    assert(scene.tracks@.take(i as int) =~= scene.tracks@);
    match &scene.drums {
        None => Ok(()),
        Some(d) => match &d.length {
            None => Ok(()),
            Some(l) => match l.to_ticks(scene.ppqn) {
                Err(e) => Err(e),
                Ok(_) => Ok(()),
            },
        },
    }
}

/// The texts of `v`.
pub open spec fn texts(v: Seq<String>) -> Seq<Seq<char>> {
    v.map_values(|s: String| s@)
}

/// The parts of `s` between plus signs.
pub open spec fn plus_parts(s: Seq<char>) -> Seq<Seq<char>>
    decreases s.len(),
{
    if s.len() == 0 {
        seq![Seq::<char>::empty()]
    } else {
        let parts = plus_parts(s.drop_last());
        if s.last() == '+' {
            parts.push(Seq::<char>::empty())
        } else {
            parts.drop_last().push(parts.last().push(s.last()))
        }
    }
}

/// The notes that the parts of a pad entry name, or the complaint about the first bad one.
pub open spec fn pad_notes(parts: Seq<Seq<char>>) -> Result<Seq<u8>, Seq<char>>
    decreases parts.len(),
{
    if parts.len() == 0 {
        Ok(Seq::<u8>::empty())
    } else {
        match pad_notes(parts.drop_last()) {
            Err(t) => Err(t),
            Ok(notes) => match text::number(text::trimmed(parts.last()), 255) {
                None => Err(complaint("Invalid drum note: '"@, parts.last())),
                Some(n) => Ok(notes.push(n as u8)),
            },
        }
    }
}

/// The notes of every pad entry, or the first complaint about one.
pub open spec fn pads_notes(entries: Seq<Seq<char>>) -> Result<Seq<Seq<u8>>, Seq<char>>
    decreases entries.len(),
{
    if entries.len() == 0 {
        Ok(Seq::<Seq<u8>>::empty())
    } else {
        match pads_notes(entries.drop_last()) {
            Err(t) => Err(t),
            Ok(pads) => match pad_notes(plus_parts(entries.last())) {
                Err(t) => Err(t),
                Ok(notes) => Ok(pads.push(notes)),
            },
        }
    }
}

proof fn lemma_pad_notes_error_stays(parts: Seq<Seq<char>>, i: int)
    requires
        0 <= i <= parts.len(),
        pad_notes(parts.take(i)) is Err,
    ensures
        pad_notes(parts) == pad_notes(parts.take(i)),
    decreases parts.len() - i,
{
    if i < parts.len() {
        assert(parts.take(i + 1).drop_last() =~= parts.take(i));
        lemma_pad_notes_error_stays(parts, i + 1);
    } else {
        assert(parts.take(i) =~= parts);
    }
}

proof fn lemma_pads_notes_error_stays(entries: Seq<Seq<char>>, i: int)
    requires
        0 <= i <= entries.len(),
        pads_notes(entries.take(i)) is Err,
    ensures
        pads_notes(entries) == pads_notes(entries.take(i)),
    decreases entries.len() - i,
{
    if i < entries.len() {
        assert(entries.take(i + 1).drop_last() =~= entries.take(i));
        lemma_pads_notes_error_stays(entries, i + 1);
    } else {
        assert(entries.take(i) =~= entries);
    }
}

fn split_plus<'a>(s: &'a str) -> (r: Vec<&'a str>)
    ensures
        r@.map_values(|p: &str| p@) == plus_parts(s@),
{
    let len: usize = s.unicode_len();
    let mut parts: Vec<&'a str> = Vec::new();
    let mut start: usize = 0;
    let mut i: usize = 0;
    assert(s@.take(0) =~= Seq::<char>::empty());
    assert(parts@.map_values(|p: &str| p@).push(s@.subrange(0, 0)) =~= plus_parts(s@.take(0)));
    while i < len
        invariant
            len == s@.len(),
            start <= i <= len,
            parts@.map_values(|p: &str| p@).push(s@.subrange(start as int, i as int)) == plus_parts(
                s@.take(i as int),
            ),
        decreases len - i,
    {
        let ghost before = parts@.map_values(|p: &str| p@);
        let c: char = s.get_char(i);
        assert(s@.take(i as int + 1).drop_last() =~= s@.take(i as int));
        assert(s@.take(i as int + 1).last() == c);
        if c == '+' {
            let part: &str = s.substring_char(start, i);
            parts.push(part);
            start = i + 1;
            assert(parts@.map_values(|p: &str| p@) =~= before.push(part@));
            assert(s@.subrange(start as int, i + 1) =~= Seq::<char>::empty());
        } else {
            assert(s@.subrange(start as int, i + 1) =~= s@.subrange(start as int, i as int).push(
                c,
            ));
            assert(before.push(s@.subrange(start as int, i as int)).drop_last() =~= before);
        }
        i = i + 1;
    }
    let ghost before = parts@.map_values(|p: &str| p@);
    let part: &str = s.substring_char(start, len);
    parts.push(part);
    assert(parts@.map_values(|p: &str| p@) =~= before.push(part@));
    assert(s@.take(len as int) =~= s@);
    parts
}

fn read_pad(s: &str) -> (r: Result<Vec<u8>, ReloadError>)
    ensures
        match pad_notes(plus_parts(s@)) {
            Ok(notes) => r matches Ok(v) && v@ == notes,
            Err(t) => r matches Err(e) && says(e, t),
        },
{
    let parts: Vec<&str> = split_plus(s);
    let ghost views = parts@.map_values(|p: &str| p@);
    let mut notes: Vec<u8> = Vec::new();
    let mut i: usize = 0;
    assert(views.take(0) =~= Seq::<Seq<char>>::empty());
    while i < parts.len()
        invariant
            i <= parts@.len(),
            views == parts@.map_values(|p: &str| p@),
            views == plus_parts(s@),
            pad_notes(views.take(i as int)) == Ok::<Seq<u8>, Seq<char>>(notes@),
        decreases parts@.len() - i,
    {
        assert(views.take(i as int + 1).drop_last() =~= views.take(i as int));
        assert(views.take(i as int + 1).last() == parts@[i as int]@);
        match text::parse_number(text::trim(parts[i]), 255) {
            None => {
                proof {
                    lemma_pad_notes_error_stays(views, i as int + 1);
                }
                return Err(complain("Invalid drum note: '", parts[i]));
            },
            Some(n) => {
                notes.push(n as u8);
            },
        }
        i = i + 1;
    }
    assert(views.take(i as int) =~= views);
    Ok(notes)
}

/// The notes of the lists of `v`.
pub open spec fn note_lists(v: Seq<Vec<u8>>) -> Seq<Seq<u8>> {
    v.map_values(|n: Vec<u8>| n@)
}

/// The notes of each pad and the output channel of the scene's drums; no notes and channel 9
/// where the scene has no drums.
pub open spec fn drum_mapping(scene: SceneConfig) -> Result<(Seq<Seq<u8>>, u8), Seq<char>> {
    match scene.drums {
        None => Ok((Seq::<Seq<u8>>::empty(), 9u8)),
        Some(d) => match pads_notes(texts(d.notes@)) {
            Err(t) => Err(t),
            Ok(pads) => Ok((pads, d.channel)),
        },
    }
}

/// Reads the scene's drum pads: the notes of each, and the output channel.
pub fn try_scene_drum_mapping(scene: &SceneConfig) -> (r: Result<(Vec<Vec<u8>>, u8), ReloadError>)
    ensures
        match drum_mapping(*scene) {
            Ok((pads, channel)) => r matches Ok((v, c)) && note_lists(v@) == pads && c == channel,
            Err(t) => r matches Err(e) && says(e, t),
        },
{
    let mut pads: Vec<Vec<u8>> = Vec::new();
    assert(note_lists(pads@) =~= Seq::<Seq<u8>>::empty());
    match &scene.drums {
        None => Ok((pads, 9)),
        Some(d) => {
            let ghost entries = texts(d.notes@);
            let mut i: usize = 0;
            assert(entries.take(0) =~= Seq::<Seq<char>>::empty());
            while i < d.notes.len()
                invariant
                    i <= d.notes@.len(),
                    entries == texts(d.notes@),
                    scene.drums == Some(*d),
                    pads_notes(entries.take(i as int)) == Ok::<Seq<Seq<u8>>, Seq<char>>(
                        note_lists(pads@),
                    ),
                decreases d.notes@.len() - i,
            {
                assert(entries.take(i as int + 1).drop_last() =~= entries.take(i as int));
                assert(entries.take(i as int + 1).last() == d.notes@[i as int]@);
                let ghost before = pads@;
                match read_pad(d.notes[i].as_str()) {
                    Err(e) => {
                        proof {
                            lemma_pads_notes_error_stays(entries, i as int + 1);
                        }
                        return Err(e);
                    },
                    Ok(notes) => {
                        pads.push(notes);
                        assert(note_lists(pads@) =~= note_lists(before).push(notes@));
                    },
                }
                i = i + 1;
            }
            assert(entries.take(i as int) =~= entries);
            Ok((pads, d.channel))
        },
    }
}

/// The complaint about a key text, if there is one.
pub open spec fn bad_key(s: Seq<char>) -> Option<Seq<char>> {
    match key_reading(s) {
        Ok(_) => None,
        Err(t) => Some(t),
    }
}

/// The first complaint about one of the key texts.
pub open spec fn first_bad_key(keys: Seq<Seq<char>>) -> Option<Seq<char>>
    decreases keys.len(),
{
    if keys.len() == 0 {
        None
    } else {
        first_of(first_bad_key(keys.drop_last()), bad_key(keys.last()))
    }
}

/// The complaint about an optional key text, if there is one.
pub open spec fn bad_optional_key(key: Option<Seq<char>>) -> Option<Seq<char>> {
    match key {
        None => None,
        Some(s) => bad_key(s),
    }
}

/// `a` where it is there, else `b`.
pub open spec fn first_of(a: Option<Seq<char>>, b: Option<Seq<char>>) -> Option<Seq<char>> {
    match a {
        Some(_) => a,
        None => b,
    }
}

/// The binding that a well-formed key text names.
pub open spec fn key_of(s: Seq<char>) -> KeyBinding {
    key_reading(s)->Ok_0
}

/// The binding that a well-formed optional key text names.
pub open spec fn optional_key_of(key: Option<Seq<char>>) -> Option<KeyBinding> {
    match key {
        None => None,
        Some(s) => Some(key_of(s)),
    }
}

/// The bindings that well-formed key texts name.
pub open spec fn keys_of(keys: Seq<Seq<char>>) -> Seq<KeyBinding> {
    keys.map_values(|s: Seq<char>| key_of(s))
}

proof fn lemma_first_bad_key_stays(keys: Seq<Seq<char>>, i: int)
    requires
        0 <= i <= keys.len(),
        first_bad_key(keys.take(i)) is Some,
    ensures
        first_bad_key(keys) == first_bad_key(keys.take(i)),
    decreases keys.len() - i,
{
    if i < keys.len() {
        assert(keys.take(i + 1).drop_last() =~= keys.take(i));
        lemma_first_bad_key_stays(keys, i + 1);
    } else {
        assert(keys.take(i) =~= keys);
    }
}

fn read_keys(keys: &Vec<String>) -> (r: Result<Vec<KeyBinding>, ReloadError>)
    ensures
        match first_bad_key(texts(keys@)) {
            None => r matches Ok(v) && v@ == keys_of(texts(keys@)),
            Some(t) => r matches Err(e) && says(e, t),
        },
{
    let ghost views = texts(keys@);
    let mut read: Vec<KeyBinding> = Vec::new();
    let mut i: usize = 0;
    assert(views.take(0) =~= Seq::<Seq<char>>::empty());
    while i < keys.len()
        invariant
            i <= keys@.len(),
            views == texts(keys@),
            first_bad_key(views.take(i as int)) is None,
            read@ == keys_of(views.take(i as int)),
        decreases keys@.len() - i,
    {
        assert(views.take(i as int + 1).drop_last() =~= views.take(i as int));
        assert(views.take(i as int + 1).last() == keys@[i as int]@);
        match try_parse_key(keys[i].as_str()) {
            Err(e) => {
                proof {
                    lemma_first_bad_key_stays(views, i as int + 1);
                }
                return Err(e);
            },
            Ok(key) => {
                read.push(key);
                assert(read@ =~= keys_of(views.take(i as int + 1)));
            },
        }
        i = i + 1;
    }
    assert(views.take(i as int) =~= views);
    Ok(read)
}

/// The key text of an optional plain key.
pub open spec fn plain_key(k: Option<QuantizeConfig>) -> Option<Seq<char>> {
    match k {
        Some(q) => Some(q.key@),
        None => None,
    }
}

/// The key text of the undo key.
pub open spec fn undo_key(hw: HardwareConfig) -> Option<Seq<char>> {
    match hw.undo_track {
        Some(u) => Some(u.key@),
        None => None,
    }
}

/// The key text of the instrument knob.
pub open spec fn instrument_key(hw: HardwareConfig) -> Option<Seq<char>> {
    match hw.instruments {
        Some(i) => Some(i.key@),
        None => None,
    }
}

/// The key texts of the drum pads.
pub open spec fn pad_keys(hw: HardwareConfig) -> Seq<Seq<char>> {
    match hw.drums {
        Some(d) => texts(d.pads@),
        None => Seq::<Seq<char>>::empty(),
    }
}

fn read_optional_key(key: Option<&str>) -> (r: Result<Option<KeyBinding>, ReloadError>)
    ensures
        ({
            let t = match key {
                Some(s) => Some(s@),
                None => None,
            };
            match bad_optional_key(t) {
                None => r == Ok::<Option<KeyBinding>, ReloadError>(optional_key_of(t)),
                Some(m) => r matches Err(e) && says(e, m),
            }
        }),
{
    match key {
        None => Ok(None),
        Some(s) => match try_parse_key(s) {
            Ok(k) => Ok(Some(k)),
            Err(e) => Err(e),
        },
    }
}

fn read_plain_key(key: &Option<QuantizeConfig>) -> (r: Result<Option<KeyBinding>, ReloadError>)
    ensures
        match bad_optional_key(plain_key(*key)) {
            None => r == Ok::<Option<KeyBinding>, ReloadError>(optional_key_of(plain_key(*key))),
            Some(m) => r matches Err(e) && says(e, m),
        },
{
    match key {
        None => read_optional_key(None),
        Some(q) => read_optional_key(Some(q.key.as_str())),
    }
}

/// The first complaint about the modifier, the pads or the drum notes, in this order.
pub open spec fn leading_key_error(hw: HardwareConfig, scene: SceneConfig) -> Option<Seq<char>> {
    first_of(
        bad_key(hw.beats_per_measure.modifier@),
        first_of(
            if key_of(hw.beats_per_measure.modifier@).channel is None {
                Some("beats_per_measure.modifier must include a channel (e.g. CC17_CH1)"@)
            } else {
                None
            },
            first_of(
                first_bad_key(pad_keys(hw)),
                match drum_mapping(scene) {
                    Ok(_) => None,
                    Err(t) => Some(t),
                },
            ),
        ),
    )
}

/// The first complaint about the other keys, in the order in which they are read.
pub open spec fn trailing_key_error(hw: HardwareConfig) -> Option<Seq<char>> {
    first_of(
        first_of(
            first_of(bad_key(hw.metronome.key@), bad_key(hw.clear_track.key@)),
            first_of(bad_key(hw.record_track.key@), bad_key(hw.clear_all.key@)),
        ),
        first_of(
            first_of(
                first_bad_key(texts(hw.tracks.keys@)),
                first_of(
                    bad_key(hw.beats_per_measure.key4@),
                    first_of(
                        bad_key(hw.beats_per_measure.key8@),
                        bad_key(hw.beats_per_measure.key16@),
                    ),
                ),
            ),
            optional_keys_error(hw),
        ),
    )
}

/// The first complaint about the optional keys, in the order in which they are read.
pub open spec fn optional_keys_error(hw: HardwareConfig) -> Option<Seq<char>> {
    first_of(
        first_of(
            first_of(
                bad_optional_key(plain_key(hw.quantize)),
                bad_optional_key(instrument_key(hw)),
            ),
            first_of(bad_optional_key(undo_key(hw)), bad_optional_key(plain_key(hw.mute_track))),
        ),
        first_of(
            first_of(
                bad_optional_key(plain_key(hw.volume_knob)),
                bad_optional_key(plain_key(hw.bpm_knob)),
            ),
            first_of(
                bad_optional_key(plain_key(hw.scene_down)),
                bad_optional_key(plain_key(hw.scene_up)),
            ),
        ),
    )
}

/// The first complaint about the bindings of a controller for a scene.
pub open spec fn mapping_error(hw: HardwareConfig, scene: SceneConfig) -> Option<Seq<char>> {
    first_of(leading_key_error(hw, scene), trailing_key_error(hw))
}

/// Whether the light channels, which count from one, are none of them zero.
pub open spec fn led_channels_counted_from_one(hw: HardwareConfig) -> bool {
    hw.leds matches Some(led) ==> {
        &&& led.on_channel >= 1
        &&& led.off_channel >= 1
        &&& led.blink_channel matches Some(c) ==> c >= 1
    }
}

/// A light channel counted from zero.
pub open spec fn led_channel(hw: HardwareConfig, pick: spec_fn(LedConfig) -> Option<u8>) -> Option<
    u8,
> {
    match hw.leds {
        None => None,
        Some(led) => match pick(led) {
            None => None,
            Some(c) => Some((c - 1) as u8),
        },
    }
}

/// Whether `m` holds the bindings that the texts of `hw` name, with the drums of `scene`.
pub open spec fn maps_keys(m: KeyMappings, hw: HardwareConfig, scene: SceneConfig) -> bool {
    &&& m.metronome == key_of(hw.metronome.key@)
    &&& m.clear_track == key_of(hw.clear_track.key@)
    &&& m.record_track == key_of(hw.record_track.key@)
    &&& m.clear_all == key_of(hw.clear_all.key@)
    &&& m.track_keys@ == keys_of(texts(hw.tracks.keys@))
    &&& m.shift == key_of(hw.beats_per_measure.modifier@)
    &&& m.beat4 == key_of(hw.beats_per_measure.key4@)
    &&& m.beat8 == key_of(hw.beats_per_measure.key8@)
    &&& m.beat16 == key_of(hw.beats_per_measure.key16@)
    &&& m.drum_keys@ == keys_of(pad_keys(hw))
    &&& drum_mapping(scene) == Ok::<(Seq<Seq<u8>>, u8), Seq<char>>(
        (note_lists(m.drum_notes@), m.drum_channel),
    )
    &&& m.metronome_led == hw.metronome.led_note
    &&& m.record_led == hw.record_track.led_note
    &&& m.led_on_channel == led_channel(hw, |led: LedConfig| Some(led.on_channel))
    &&& m.led_off_channel == led_channel(hw, |led: LedConfig| Some(led.off_channel))
    &&& m.led_blink_channel == led_channel(hw, |led: LedConfig| led.blink_channel)
    &&& m.quantize == optional_key_of(plain_key(hw.quantize))
    &&& m.instrument_select == optional_key_of(instrument_key(hw))
    &&& m.undo_track == optional_key_of(undo_key(hw))
    &&& m.mute_track == optional_key_of(plain_key(hw.mute_track))
    &&& m.volume_knob == optional_key_of(plain_key(hw.volume_knob))
    &&& m.bpm_knob == optional_key_of(plain_key(hw.bpm_knob))
    &&& m.scene_down == optional_key_of(plain_key(hw.scene_down))
    &&& m.scene_up == optional_key_of(plain_key(hw.scene_up))
}

fn read_leading_keys(hw: &HardwareConfig, scene: &SceneConfig) -> (r: Result<
    (KeyBinding, Vec<KeyBinding>, Vec<Vec<u8>>, u8),
    ReloadError,
>)
    ensures
        match leading_key_error(*hw, *scene) {
            None => r matches Ok((shift, pads, notes, channel)) && {
                &&& shift == key_of(hw.beats_per_measure.modifier@)
                &&& pads@ == keys_of(pad_keys(*hw))
                &&& drum_mapping(*scene) == Ok::<(Seq<Seq<u8>>, u8), Seq<char>>(
                    (note_lists(notes@), channel),
                )
            },
            Some(t) => r matches Err(e) && says(e, t),
        },
{
    let shift: KeyBinding = match try_parse_key(hw.beats_per_measure.modifier.as_str()) {
        Err(e) => return Err(e),
        Ok(k) => k,
    };
    if shift.channel.is_none() {
        return Err(
            ReloadError::Parse(
                "beats_per_measure.modifier must include a channel (e.g. CC17_CH1)".to_string(),
            ),
        );
    }
    let pads: Vec<KeyBinding> = match &hw.drums {
        None => {
            let none: Vec<KeyBinding> = Vec::new();
            assert(none@ =~= keys_of(pad_keys(*hw)));
            none
        },
        Some(d) => match read_keys(&d.pads) {
            Err(e) => return Err(e),
            Ok(v) => v,
        },
    };
    match try_scene_drum_mapping(scene) {
        Err(e) => Err(e),
        Ok((notes, channel)) => Ok((shift, pads, notes, channel)),
    }
}

/// Whether the bindings of a controller can be built for a scene: its light channels count from
/// one, or a complaint comes before they are looked at.
pub fn mapping_is_ready(hw: &HardwareConfig, scene: &SceneConfig) -> (r: bool)
    ensures
        r == (leading_key_error(*hw, *scene) is None ==> led_channels_counted_from_one(*hw)),
{
    match read_leading_keys(hw, scene) {
        Err(_) => true,
        Ok(_) => match &hw.leds {
            Some(led) => led.on_channel >= 1 && led.off_channel >= 1 && match led.blink_channel {
                Some(c) => c >= 1,
                None => true,
            },
            None => true,
        },
    }
}

/// Builds the bindings of a controller for a scene.
pub fn try_build_key_mappings(hw: &HardwareConfig, scene: &SceneConfig) -> (r: Result<
    KeyMappings,
    ReloadError,
>)
    requires
        leading_key_error(*hw, *scene) is None ==> led_channels_counted_from_one(*hw),
    ensures
        match mapping_error(*hw, *scene) {
            None => r matches Ok(m) && maps_keys(m, *hw, *scene),
            Some(t) => r matches Err(e) && says(e, t),
        },
{
    let (shift, drum_keys, drum_notes, drum_channel) = match read_leading_keys(hw, scene) {
        Err(e) => return Err(e),
        Ok(v) => v,
    };
    let (led_on_channel, led_off_channel, led_blink_channel) = match &hw.leds {
        Some(led) => (
            Some((led.on_channel - 1) as u8),
            Some((led.off_channel - 1) as u8),
            match led.blink_channel {
                Some(c) => Some((c - 1) as u8),
                None => None,
            },
        ),
        None => (None, None, None),
    };
    let metronome: KeyBinding = match try_parse_key(hw.metronome.key.as_str()) {
        Err(e) => return Err(e),
        Ok(k) => k,
    };
    let clear_track: KeyBinding = match try_parse_key(hw.clear_track.key.as_str()) {
        Err(e) => return Err(e),
        Ok(k) => k,
    };
    let record_track: KeyBinding = match try_parse_key(hw.record_track.key.as_str()) {
        Err(e) => return Err(e),
        Ok(k) => k,
    };
    let clear_all: KeyBinding = match try_parse_key(hw.clear_all.key.as_str()) {
        Err(e) => return Err(e),
        Ok(k) => k,
    };
    let track_keys: Vec<KeyBinding> = match read_keys(&hw.tracks.keys) {
        Err(e) => return Err(e),
        Ok(v) => v,
    };
    let beat4: KeyBinding = match try_parse_key(hw.beats_per_measure.key4.as_str()) {
        Err(e) => return Err(e),
        Ok(k) => k,
    };
    let beat8: KeyBinding = match try_parse_key(hw.beats_per_measure.key8.as_str()) {
        Err(e) => return Err(e),
        Ok(k) => k,
    };
    let beat16: KeyBinding = match try_parse_key(hw.beats_per_measure.key16.as_str()) {
        Err(e) => return Err(e),
        Ok(k) => k,
    };
    let quantize: Option<KeyBinding> = match read_plain_key(&hw.quantize) {
        Err(e) => return Err(e),
        Ok(k) => k,
    };
    let instrument_text: Option<&str> = match &hw.instruments {
        Some(i) => Some(i.key.as_str()),
        None => None,
    };
    let instrument_select: Option<KeyBinding> = match read_optional_key(instrument_text) {
        Err(e) => return Err(e),
        Ok(k) => k,
    };
    let undo_text: Option<&str> = match &hw.undo_track {
        Some(u) => Some(u.key.as_str()),
        None => None,
    };
    let undo_track: Option<KeyBinding> = match read_optional_key(undo_text) {
        Err(e) => return Err(e),
        Ok(k) => k,
    };
    let mute_track: Option<KeyBinding> = match read_plain_key(&hw.mute_track) {
        Err(e) => return Err(e),
        Ok(k) => k,
    };
    let volume_knob: Option<KeyBinding> = match read_plain_key(&hw.volume_knob) {
        Err(e) => return Err(e),
        Ok(k) => k,
    };
    let bpm_knob: Option<KeyBinding> = match read_plain_key(&hw.bpm_knob) {
        Err(e) => return Err(e),
        Ok(k) => k,
    };
    let scene_down: Option<KeyBinding> = match read_plain_key(&hw.scene_down) {
        Err(e) => return Err(e),
        Ok(k) => k,
    };
    let scene_up: Option<KeyBinding> = match read_plain_key(&hw.scene_up) {
        Err(e) => return Err(e),
        Ok(k) => k,
    };
    Ok(
        KeyMappings {
            metronome,
            clear_track,
            record_track,
            clear_all,
            track_keys,
            shift,
            beat4,
            beat8,
            beat16,
            drum_keys,
            drum_notes,
            drum_channel,
            metronome_led: hw.metronome.led_note,
            record_led: hw.record_track.led_note,
            led_on_channel,
            led_off_channel,
            led_blink_channel,
            quantize,
            instrument_select,
            undo_track,
            mute_track,
            volume_knob,
            bpm_knob,
            scene_down,
            scene_up,
        },
    )
}

/// The first position of `pairs` whose name is `key`.
pub open spec fn named_at<T>(pairs: Seq<(String, T)>, key: Seq<char>) -> Option<int>
    decreases pairs.len(),
{
    if pairs.len() == 0 {
        None
    } else {
        match named_at(pairs.drop_last(), key) {
            Some(i) => Some(i),
            None => if pairs.last().0@ == key {
                Some(pairs.len() - 1)
            } else {
                None
            },
        }
    }
}

proof fn lemma_named_at_stays<T>(pairs: Seq<(String, T)>, key: Seq<char>, i: int)
    requires
        0 <= i <= pairs.len(),
        named_at(pairs.take(i), key) is Some,
    ensures
        named_at(pairs, key) == named_at(pairs.take(i), key),
    decreases pairs.len() - i,
{
    if i < pairs.len() {
        assert(pairs.take(i + 1).drop_last() =~= pairs.take(i));
        lemma_named_at_stays(pairs, key, i + 1);
    } else {
        assert(pairs.take(i) =~= pairs);
    }
}

/// Looks a name up.
pub fn find_named<T>(pairs: &Vec<(String, T)>, key: &String) -> (r: Option<usize>)
    ensures
        match r {
            Some(i) => i < pairs@.len() && pairs@[i as int].0@ == key@ && named_at(pairs@, key@)
                == Some(i as int),
            None => named_at(pairs@, key@) == None::<int>,
        },
{
    let mut i: usize = 0;
    assert(pairs@.take(0) =~= Seq::<(String, T)>::empty());
    while i < pairs.len()
        invariant
            i <= pairs@.len(),
            named_at(pairs@.take(i as int), key@) is None,
        decreases pairs@.len() - i,
    {
        assert(pairs@.take(i as int + 1).drop_last() =~= pairs@.take(i as int));
        if pairs[i].0 == *key {
            proof {
                lemma_named_at_stays(pairs@, key@, i as int + 1);
            }
            return Some(i);
        }
        i = i + 1;
    }
    assert(pairs@.take(i as int) =~= pairs@);
    None
}

/// The name of an instrument: the one listed under the program's number, else the number.
pub open spec fn instrument_name(gm: GmConfig, program: u8) -> Seq<char> {
    match named_at(gm.programs@, text::decimal(program as nat)) {
        Some(i) => gm.programs@[i].1@,
        None => "Program "@ + text::decimal(program as nat),
    }
}

/// The name to show for a program.
pub fn gm_name(gm: &GmConfig, program: u8) -> (r: String)
    ensures
        r@ == instrument_name(*gm, program),
{
    match find_named(&gm.programs, &text::to_decimal(program as u64)) {
        Some(i) => gm.programs[i].1.clone(),
        None => {
            let mut s: String = "Program ".to_string();
            text::push_decimal(&mut s, program as u64);
            s
        },
    }
}

/// What the number of a duration text was read as: whether it is finite, whether it is below
/// zero, and, where it is neither infinite nor negative, the duration in nanoseconds.
#[derive(Clone, Copy, Debug)]
pub struct DurationNumber {
    pub finite: bool,
    pub negative: bool,
    pub nanos: u128,
}

/// The number in the duration text `s`, and whether it counts milliseconds instead of seconds.
pub open spec fn duration_parts(s: Seq<char>) -> (Seq<char>, bool) {
    let t = text::trimmed(s);
    let n = t.len() as int;
    if n >= 2 && t[n - 2] == 'm' && t[n - 1] == 's' {
        (text::trimmed(t.take(n - 2)), true)
    } else if n >= 1 && t[n - 1] == 's' {
        (text::trimmed(t.take(n - 1)), false)
    } else {
        (text::trimmed(t), false)
    }
}

/// Cuts a duration text such as "3s", "1.5s", "500ms" or "3" into its number and its unit.
pub fn split_duration<'a>(s: &'a str) -> (r: (&'a str, bool))
    ensures
        (r.0@, r.1) == duration_parts(s@),
{
    let t: &str = text::trim(s);
    let n: usize = t.unicode_len();
    if n >= 2 && t.get_char(n - 2) == 'm' && t.get_char(n - 1) == 's' {
        let number: &str = t.substring_char(0, n - 2);
        assert(number@ =~= t@.take(n - 2));
        (text::trim(number), true)
    } else if n >= 1 && t.get_char(n - 1) == 's' {
        let number: &str = t.substring_char(0, n - 1);
        assert(number@ =~= t@.take(n - 1));
        (text::trim(number), false)
    } else {
        (text::trim(t), false)
    }
}

/// The nanoseconds of the duration text `s`, whose number was read as `number`.
pub open spec fn duration_reading(s: Seq<char>, number: Option<DurationNumber>) -> Result<
    u128,
    Seq<char>,
> {
    match number {
        None => Err(complaint("Invalid duration: '"@, s)),
        Some(n) => if !n.finite || n.negative {
            Err(complaint("Duration must be non-negative: '"@, s))
        } else {
            Ok(n.nanos)
        },
    }
}

/// Takes a duration text, the number of which was read as `number`, for a time in nanoseconds.
pub fn try_parse_duration(s: &str, number: Option<DurationNumber>) -> (r: Result<
    u128,
    ReloadError,
>)
    ensures
        agrees(r, duration_reading(s@, number)),
{
    match number {
        None => Err(complain("Invalid duration: '", s)),
        Some(n) => if !n.finite || n.negative {
            Err(complain("Duration must be non-negative: '", s))
        } else {
            Ok(n.nanos)
        },
    }
}

/// The scene that stands in for a missing file: one track of four beats at 120 beats a minute.
pub fn default_scene() -> (r: SceneConfig)
    ensures
        r.name is None,
        r.bpm == 120,
        r.metronome_on,
        r.time_signature_numerator == 4,
        r.time_signature_denominator == 4,
        r.ppqn == 24,
        r.max_tracking_beats == 16,
        r.drums is None,
        r.tracks@.len() == 1,
        r.well_named(),
        r.tracks@[0].0@ == text::decimal(1),
        r.tracks@[0].1 == (TomlTrackConfig {
            channel: 0,
            length: Length::Ticks(96),
            program: 0,
            volume: None,
            velocity: None,
            velocity_multiplier: None,
            name: None,
        }),
{
    let mut tracks: Vec<(String, TomlTrackConfig)> = Vec::new();
    tracks.push(
        (
            text::to_decimal(1),
            TomlTrackConfig {
                channel: 0,
                length: Length::Ticks(96),
                program: 0,
                volume: None,
                velocity: None,
                velocity_multiplier: None,
                name: None,
            },
        ),
    );
    SceneConfig {
        name: None,
        bpm: 120,
        metronome_on: true,
        time_signature_numerator: 4,
        time_signature_denominator: 4,
        ppqn: 24,
        max_tracking_beats: 16,
        tracks,
        drums: None,
    }
}

} // verus!
