//! What `ffprobe` says about a clip, read out of its JSON report.

use crate::parse::{
    chars_of, decimal_units, find, first_of, parse_decimal, parse_whole, whole_number, UNITS_CAP,
};
use crate::paths::text_of;
use crate::units::{
    clamp, div_round, div_round_away, held, least, round_away, round_div, time_ok, ONE, TIME_LIMIT,
};
use vstd::prelude::*;
use vstd::string::StringExecFns;

verus! {

/// `serde_json::Value`, a parsed document; nothing is claimed of it here.
#[verifier::external_type_specification]
#[verifier::external_body]
pub struct ExJsonValue(serde_json::Value);

/// `serde_json::Error`, why bytes are no document.
#[verifier::external_type_specification]
#[verifier::external_body]
pub struct ExJsonError(serde_json::Error);

/// A JSON value.
pub enum Json {
    Null,
    Bool(bool),
    /// A number: as an unsigned 64-bit integer where it is one, and as text.
    Number { whole: Option<u64>, text: Seq<char> },
    Text(Seq<char>),
    List(Seq<Json>),
    Object(Map<Seq<char>, Json>),
}

/// What a parsed value holds.
pub uninterp spec fn json_of(v: serde_json::Value) -> Json;

/// What parsing bytes as JSON yields, or nothing where they are no JSON.
pub uninterp spec fn json_read(bytes: Seq<u8>) -> Option<Json>;

impl Json {
    /// The member of an object under a name; null where there is none.
    pub open spec fn member(self, name: Seq<char>) -> Json {
        match self {
            Json::Object(m) => if m.dom().contains(name) { m[name] } else { Json::Null },
            _ => Json::Null,
        }
    }

    pub open spec fn text(self) -> Option<Seq<char>> {
        match self {
            Json::Text(s) => Some(s),
            _ => None,
        }
    }

    pub open spec fn whole(self) -> Option<u64> {
        match self {
            Json::Number { whole, .. } => whole,
            _ => None,
        }
    }

    pub open spec fn number_text(self) -> Option<Seq<char>> {
        match self {
            Json::Number { text, .. } => Some(text),
            _ => None,
        }
    }

    /// The items of a list; none where it is no list.
    pub open spec fn items(self) -> Seq<Json> {
        match self {
            Json::List(l) => l,
            _ => Seq::empty(),
        }
    }
}

/// `serde_json::from_slice`: the value that the bytes spell, or an error
/// where they spell none.
#[verifier::external_body]
fn parse_json(bytes: &[u8]) -> (r: Result<serde_json::Value, serde_json::Error>)
    ensures
        match r {
            Ok(v) => json_read(bytes@) == Some(json_of(v)),
            Err(_) => json_read(bytes@) is None,
        },
{
    serde_json::from_slice(bytes)
}

/// Indexing a `serde_json::Value` by a name: the member of that name, null
/// where the value is no object or has none.
#[verifier::external_body]
fn member<'a>(v: &'a serde_json::Value, name: &str) -> (r: &'a serde_json::Value)
    ensures
        json_of(*r) == json_of(*v).member(name@),
{
    &v[name]
}

/// `serde_json::Value::as_str`: the characters of a string value, nothing of
/// any other.
#[verifier::external_body]
fn as_text(v: &serde_json::Value) -> (r: Option<String>)
    ensures
        match r {
            Some(s) => json_of(*v).text() == Some(s@),
            None => json_of(*v).text() is None,
        },
{
    v.as_str().map(|s| s.to_string())
}

/// `serde_json::Value::as_u64`: the number where it is an integer that 64
/// bits hold without a sign.
#[verifier::external_body]
fn as_whole(v: &serde_json::Value) -> (r: Option<u64>)
    ensures
        r == json_of(*v).whole(),
{
    v.as_u64()
}

/// `serde_json::Value::as_number` and the number's own text.
#[verifier::external_body]
fn as_number_text(v: &serde_json::Value) -> (r: Option<String>)
    ensures
        match r {
            Some(s) => json_of(*v).number_text() == Some(s@),
            None => json_of(*v).number_text() is None,
        },
{
    v.as_number().map(|n| n.to_string())
}

/// `serde_json::Value::as_array`: the items of a list, nothing of any other
/// value.
#[verifier::external_body]
fn as_items<'a>(v: &'a serde_json::Value) -> (r: Option<&'a Vec<serde_json::Value>>)
    ensures
        match r {
            Some(l) => json_of(*v) is List && l@.len() == json_of(*v).items().len() && forall|
                i: int,
            |
                0 <= i < l@.len() ==> json_of(#[trigger] l@[i]) == json_of(*v).items()[i],
            None => !(json_of(*v) is List),
        },
{
    v.as_array()
}

pub struct VideoInfo {
    pub path: String,
    /// Display dimensions (rotation already applied: a clip turned by a
    /// quarter reports its portrait size here; the decoder output matches).
    pub width: u32,
    pub height: u32,
    pub fps: i64,
    /// 0 when the container doesn't say.
    pub duration: i64,
    pub codec: String,
    pub pix_fmt: String,
    /// Bits per second, stream-level preferred, container fallback.
    pub bit_rate: Option<u64>,
    pub file_size: u64,
    /// Display rotation in degrees (phone footage), in billionths.
    pub rotation: Option<i64>,
}

/// A clip's description.
pub struct InfoState {
    pub path: Seq<char>,
    pub width: u32,
    pub height: u32,
    pub fps: int,
    pub duration: int,
    pub codec: Seq<char>,
    pub pix_fmt: Seq<char>,
    pub bit_rate: Option<u64>,
    pub file_size: u64,
    pub rotation: Option<i64>,
}

impl View for VideoInfo {
    type V = InfoState;

    open spec fn view(&self) -> InfoState {
        InfoState {
            path: self.path@,
            width: self.width,
            height: self.height,
            fps: self.fps as int,
            duration: self.duration as int,
            codec: self.codec@,
            pix_fmt: self.pix_fmt@,
            bit_rate: self.bit_rate,
            file_size: self.file_size,
            rotation: self.rotation,
        }
    }
}

/// Why a clip could not be described.
#[derive(Debug, Clone, Copy, PartialEq, Eq, Structural)]
pub enum ProbeError {
    /// The report is no JSON.
    Json,
    /// It lists no video stream.
    NoVideoStream,
    /// The stream has no dimensions.
    NoDimensions,
    /// `ffprobe` did not end in time.
    Late,
}

impl ProbeError {
    pub open spec fn text(self, path: Seq<char>) -> Seq<char> {
        match self {
            ProbeError::Json => "ffprobe json"@,
            ProbeError::NoVideoStream => "no video stream in "@ + path,
            ProbeError::NoDimensions => "no dimensions for "@ + path,
            ProbeError::Late => "ffprobe did not return within 30s"@,
        }
    }

    /// What to say of the clip at `path`.
    pub fn message(self, path: &str) -> (r: String)
        ensures
            r@ == self.text(path@),
    {
        match self {
            ProbeError::Json => "ffprobe json".to_owned(),
            ProbeError::NoVideoStream => {
                let mut s = "no video stream in ".to_owned();
                s.append(path);
                s
            },
            ProbeError::NoDimensions => {
                let mut s = "no dimensions for ".to_owned();
                s.append(path);
                s
            },
            ProbeError::Late => "ffprobe did not return within 30s".to_owned(),
        }
    }
}

/// Whether a clip's rate and length lie in the range the player handles,
/// and it has a picture.
pub open spec fn playable(info: InfoState) -> bool {
    &&& info.width >= 1 && info.height >= 1
    &&& 0 <= info.fps <= TIME_LIMIT
    &&& time_ok(info.duration)
}

/// The degrees of a quarter turn.
pub const QUARTER: i64 = 90_000_000_000;

/// The nearest number of quarter turns, halves away from zero.
pub open spec fn quarters(rotation: int) -> int {
    round_away(rotation, QUARTER as int)
}

/// `quarters`.
pub fn quarter_turns(rotation: i64) -> (r: i64)
    ensures
        r == quarters(rotation as int),
        -0x1_0000_0000 <= r <= 0x1_0000_0000,
{
    proof {
        if rotation >= 0 {
            crate::units::round_div_bounds(rotation as int, QUARTER as int, 0, 0x1_0000_0000);
        } else {
            crate::units::round_div_bounds(-rotation, QUARTER as int, 0, 0x1_0000_0000);
        }
    }
    div_round_away(rotation as i128, QUARTER as i128) as i64
}

/// Whether the picture lies on its side.
pub open spec fn on_its_side(rotation: Option<int>) -> bool {
    rotation matches Some(r) && quarters(r) % 2 == 1
}

/// A frame rate `num/den`, both above 0.
pub open spec fn rate(s: Seq<char>) -> Option<int> {
    let at = first_of(s, 0, '/', '/');
    if at >= s.len() {
        None
    } else {
        match (decimal_units(s.take(at)), decimal_units(s.skip(at + 1))) {
            (Some(num), Some(den)) => if num > 0 && den > 0 {
                Some(least(round_div(num * ONE, den), TIME_LIMIT as int))
            } else {
                None
            },
            _ => None,
        }
    }
}

/// The first where there is one, else the second.
pub open spec fn or_else<T>(a: Option<T>, b: Option<T>) -> Option<T> {
    if a is Some { a } else { b }
}

pub open spec fn rate_in(j: Json) -> Option<int> {
    match j.text() {
        Some(s) => rate(s),
        None => None,
    }
}

pub open spec fn decimal_in(j: Json) -> Option<int> {
    match j.text() {
        Some(s) => decimal_units(s),
        None => None,
    }
}

/// A length of time: a decimal number of seconds, held to the range the player
/// handles.
pub open spec fn seconds_in(j: Json) -> Option<int> {
    match decimal_in(j) {
        Some(v) => Some(held(v, -TIME_LIMIT as int, TIME_LIMIT as int)),
        None => None,
    }
}

pub open spec fn number_in(j: Json) -> Option<int> {
    match j.number_text() {
        Some(s) => decimal_units(s),
        None => None,
    }
}

pub open spec fn whole_in(j: Json) -> Option<int> {
    match j.text() {
        Some(s) => whole_number(s),
        None => None,
    }
}

/// The first entry from `i` on that has a numeric rotation, as that number.
pub open spec fn side_rotation(list: Seq<Json>, i: int) -> Option<int>
    decreases list.len() - i,
{
    if i >= list.len() {
        None
    } else {
        or_else(number_in(list[i].member("rotation"@)), side_rotation(list, i + 1))
    }
}

/// The place of the first video stream from `i` on, or the end.
pub open spec fn first_video(streams: Seq<Json>, i: int) -> int
    decreases streams.len() - i,
{
    if i >= streams.len() {
        streams.len() as int
    } else if streams[i].member("codec_type"@).text() == Some("video"@) {
        i
    } else {
        first_video(streams, i + 1)
    }
}

/// A side of the picture: what the report says, cut to 32 bits.
pub open spec fn side_of(j: Json) -> u32 {
    match j.whole() {
        Some(v) => v as u32,
        None => 0,
    }
}

pub open spec fn text_or(j: Json, other: Seq<char>) -> Seq<char> {
    match j.text() {
        Some(s) => s,
        None => other,
    }
}

/// Display rotation: the stream's side data, else its legacy tag.
pub open spec fn rotation_of(stream: Json) -> Option<int> {
    or_else(
        side_rotation(stream.member("side_data_list"@).items(), 0),
        decimal_in(stream.member("tags"@).member("rotate"@)),
    )
}

/// What `info` has to say of a clip whose report is `report`, with `stream`
/// its video stream.
pub open spec fn describes(
    info: InfoState,
    report: Json,
    stream: Json,
    path: Seq<char>,
    file_len: Option<u64>,
) -> bool {
    let format = report.member("format"@);
    let w = side_of(stream.member("width"@));
    let h = side_of(stream.member("height"@));
    let turn = rotation_of(stream);
    &&& info.path == path
    &&& info.width == if on_its_side(turn) { h } else { w }
    &&& info.height == if on_its_side(turn) { w } else { h }
    &&& Some(info.fps) == or_else(
        rate_in(stream.member("avg_frame_rate"@)),
        or_else(rate_in(stream.member("r_frame_rate"@)), Some(30 * ONE as int)),
    )
    &&& Some(info.duration) == or_else(
        seconds_in(stream.member("duration"@)),
        or_else(seconds_in(format.member("duration"@)), Some(0int)),
    )
    &&& info.codec == text_or(stream.member("codec_name"@), "?"@)
    &&& info.pix_fmt == text_or(stream.member("pix_fmt"@), "?"@)
    &&& match info.bit_rate {
        Some(b) => or_else(
            whole_in(stream.member("bit_rate"@)),
            whole_in(format.member("bit_rate"@)),
        ) == Some(b as int),
        None => whole_in(stream.member("bit_rate"@)) is None && whole_in(
            format.member("bit_rate"@),
        ) is None,
    }
    &&& info.file_size == match whole_in(format.member("size"@)) {
        Some(v) => v,
        None => match file_len {
            Some(l) => l as int,
            None => 0,
        },
    }
    &&& match info.rotation {
        Some(r) => turn == Some(r as int),
        None => turn is None,
    }
}

/// What a report yields.
pub open spec fn outcome(
    r: Result<InfoState, ProbeError>,
    report: Json,
    path: Seq<char>,
    file_len: Option<u64>,
) -> bool {
    let streams = report.member("streams"@).items();
    let at = first_video(streams, 0);
    if at >= streams.len() {
        r == Err::<InfoState, ProbeError>(ProbeError::NoVideoStream)
    } else if side_of(streams[at].member("width"@)) == 0 || side_of(streams[at].member("height"@))
        == 0 {
        r == Err::<InfoState, ProbeError>(ProbeError::NoDimensions)
    } else {
        r matches Ok(info) && describes(info, report, streams[at], path, file_len)
    }
}

/// A result with its value's content.
pub open spec fn seen(r: Result<VideoInfo, ProbeError>) -> Result<InfoState, ProbeError> {
    match r {
        Ok(info) => Ok(info@),
        Err(e) => Err(e),
    }
}

fn parse_rate(s: &str) -> (r: Option<i64>)
    ensures
        match r {
            Some(v) => rate(s@) == Some(v as int) && 0 <= v <= TIME_LIMIT,
            None => rate(s@) is None,
        },
{
    let all = chars_of(s);
    let at: usize = find(&all, '/', '/');
    if at >= all.len() {
        return None;
    }
    let num = parse_decimal(text_of(&all, 0, at).as_str());
    let den = parse_decimal(text_of(&all, at + 1, all.len()).as_str());
    assert(s@.subrange(0, at as int) =~= s@.take(at as int));
    assert(s@.subrange(at + 1, s@.len() as int) =~= s@.skip(at + 1));
    match (num, den) {
        (Some(num), Some(den)) => {
            if num > 0 && den > 0 {
                proof {
                    crate::units::round_div_sign(num * ONE, den as int);
                }
                let q: i128 = div_round(num as i128 * ONE as i128, den as i128);
                if q > TIME_LIMIT as i128 {
                    Some(TIME_LIMIT)
                } else {
                    Some(q as i64)
                }
            } else {
                None
            }
        },
        _ => None,
    }
}

fn rate_at(v: &serde_json::Value) -> (r: Option<i64>)
    ensures
        match r {
            Some(x) => rate_in(json_of(*v)) == Some(x as int) && 0 <= x <= TIME_LIMIT,
            None => rate_in(json_of(*v)) is None,
        },
{
    match as_text(v) {
        Some(s) => parse_rate(s.as_str()),
        None => None,
    }
}

fn decimal_at(v: &serde_json::Value) -> (r: Option<i64>)
    ensures
        match r {
            Some(x) => decimal_in(json_of(*v)) == Some(x as int) && -UNITS_CAP <= x <= UNITS_CAP,
            None => decimal_in(json_of(*v)) is None,
        },
{
    match as_text(v) {
        Some(s) => parse_decimal(s.as_str()),
        None => None,
    }
}

fn seconds_at(v: &serde_json::Value) -> (r: Option<i64>)
    ensures
        match r {
            Some(x) => seconds_in(json_of(*v)) == Some(x as int) && time_ok(x as int),
            None => seconds_in(json_of(*v)) is None,
        },
{
    match decimal_at(v) {
        Some(x) => Some(clamp(x, -TIME_LIMIT, TIME_LIMIT)),
        None => None,
    }
}

fn whole_at(v: &serde_json::Value) -> (r: Option<u64>)
    ensures
        match r {
            Some(x) => whole_in(json_of(*v)) == Some(x as int),
            None => whole_in(json_of(*v)) is None,
        },
{
    match as_text(v) {
        Some(s) => parse_whole(s.as_str()),
        None => None,
    }
}

fn side_at(v: &serde_json::Value) -> (r: u32)
    ensures
        r == side_of(json_of(*v)),
{
    match as_whole(v) {
        Some(x) => x as u32,
        None => 0,
    }
}

fn text_at(v: &serde_json::Value) -> (r: String)
    ensures
        r@ == text_or(json_of(*v), "?"@),
{
    match as_text(v) {
        Some(s) => s,
        None => "?".to_owned(),
    }
}

fn rotation_at(stream: &serde_json::Value) -> (r: Option<i64>)
    ensures
        match r {
            Some(x) => rotation_of(json_of(*stream)) == Some(x as int),
            None => rotation_of(json_of(*stream)) is None,
        },
{
    let side = member(stream, "side_data_list");
    let ghost list = json_of(*stream).member("side_data_list"@).items();
    match as_items(side) {
        Some(entries) => {
            let mut i: usize = 0;
            while i < entries.len()
                invariant
                    i <= entries@.len(),
                    entries@.len() == list.len(),
                    list == json_of(*stream).member("side_data_list"@).items(),
                    forall|k: int|
                        0 <= k < entries@.len() ==> json_of(#[trigger] entries@[k]) == list[k],
                    side_rotation(list, 0) == side_rotation(list, i as int),
                decreases entries@.len() - i,
            {
                match as_number_text(member(&entries[i], "rotation")) {
                    Some(s) => {
                        let x = parse_decimal(s.as_str());
                        if x.is_some() {
                            return x;
                        }
                    },
                    None => {},
                }
                i = i + 1;
            }
        },
        None => {},
    }
    decimal_at(member(member(stream, "tags"), "rotate"))
}

/// Whether a text is the given word.
fn is_word(s: &Option<String>, word: &str) -> (r: bool)
    ensures
        r == (s matches Some(t) && t@ == word@),
{
    match s {
        Some(t) => {
            let w = word.to_owned();
            *t == w
        },
        None => false,
    }
}

/// Describes a clip from its parsed report. `file_len` is the length of the
/// file on disk, for a report that does not give it.
pub fn info_from_report(report: &serde_json::Value, path: &str, file_len: Option<u64>) -> (r: Result<
    VideoInfo,
    ProbeError,
>)
    ensures
        outcome(seen(r), json_of(*report), path@, file_len),
        r matches Ok(info) ==> playable(info@),
{
    let ghost streams = json_of(*report).member("streams"@).items();
    let list = match as_items(member(report, "streams")) {
        Some(l) => l,
        None => {
            return Err(ProbeError::NoVideoStream);
        },
    };
    let mut at: usize = 0;
    while at < list.len() && !is_word(&as_text(member(&list[at], "codec_type")), "video")
        invariant
            at <= list@.len(),
            list@.len() == streams.len(),
            forall|k: int| 0 <= k < list@.len() ==> json_of(#[trigger] list@[k]) == streams[k],
            first_video(streams, 0) == first_video(streams, at as int),
        decreases list@.len() - at,
    {
        at = at + 1;
    }
    if at >= list.len() {
        return Err(ProbeError::NoVideoStream);
    }
    let stream = &list[at];
    assert(json_of(*stream) == streams[at as int]);
    assert(first_video(streams, 0) == at);
    let w: u32 = side_at(member(stream, "width"));
    let h: u32 = side_at(member(stream, "height"));
    if w == 0 || h == 0 {
        return Err(ProbeError::NoDimensions);
    }
    let format = member(report, "format");
    let fps: i64 = match rate_at(member(stream, "avg_frame_rate")) {
        Some(x) => x,
        None => match rate_at(member(stream, "r_frame_rate")) {
            Some(x) => x,
            None => 30 * ONE,
        },
    };
    let duration: i64 = match seconds_at(member(stream, "duration")) {
        Some(x) => x,
        None => match seconds_at(member(format, "duration")) {
            Some(x) => x,
            None => 0,
        },
    };
    let bit_rate = match whole_at(member(stream, "bit_rate")) {
        Some(x) => Some(x),
        None => whole_at(member(format, "bit_rate")),
    };
    let file_size: u64 = match whole_at(member(format, "size")) {
        Some(x) => x,
        None => match file_len {
            Some(x) => x,
            None => 0,
        },
    };
    let rotation = rotation_at(stream);
    let sideways = match rotation {
        Some(x) => {
            let q: i64 = quarter_turns(x);
            q % 2 != 0
        },
        None => false,
    };
    Ok(
        VideoInfo {
            path: path.to_owned(),
            width: if sideways {
                h
            } else {
                w
            },
            height: if sideways {
                w
            } else {
                h
            },
            fps,
            duration,
            codec: text_at(member(stream, "codec_name")),
            pix_fmt: text_at(member(stream, "pix_fmt")),
            bit_rate,
            file_size,
            rotation,
        },
    )
}

/// Describes a clip from the report `ffprobe` printed.
pub fn probe(path: &str, report: &[u8], file_len: Option<u64>) -> (r: Result<VideoInfo, ProbeError>)
    ensures
        match json_read(report@) {
            Some(j) => outcome(seen(r), j, path@, file_len),
            None => seen(r) == Err::<InfoState, ProbeError>(ProbeError::Json),
        },
        r matches Ok(info) ==> playable(info@),
{
    match parse_json(report) {
        Ok(v) => info_from_report(&v, path, file_len),
        Err(_) => Err(ProbeError::Json),
    }
}

/// How long `ffprobe` may take: a file on a volume that has gone away is an
/// error rather than a hang.
pub const DEADLINE: u64 = 30_000_000_000;

/// What to do about a running `ffprobe`.
#[derive(Debug, Clone, Copy, PartialEq, Eq, Structural)]
pub enum Wait {
    /// It has ended; whether it succeeded.
    Done(bool),
    /// It is late: kill it.
    GiveUp,
    /// Look again in a moment.
    Again,
}

/// What a look at an `ffprobe` that has run for `waited` leads to.
pub open spec fn waits(waited: u64, exited: Option<bool>) -> Wait {
    match exited {
        Some(ok) => Wait::Done(ok),
        None => if waited >= DEADLINE { Wait::GiveUp } else { Wait::Again },
    }
}

/// An `ffprobe` that has ended counts as it ended, however late; one that has
/// not is given thirty seconds, and no more.
pub proof fn ffprobe_is_given_thirty_seconds(waited: u64, ok: bool)
    ensures
        waits(waited, Some(ok)) == Wait::Done(ok),
        waited < 30_000_000_000 ==> waits(waited, None) == Wait::Again,
        waited >= 30_000_000_000 ==> waits(waited, None) == Wait::GiveUp,
{
}

/// One look at an `ffprobe` that has run for `waited`: whether it has ended,
/// and how. One that ended counts, however late it is seen.
pub fn wait_step(waited: u64, exited: Option<bool>) -> (r: Wait)
    ensures
        r == match exited {
            Some(ok) => Wait::Done(ok),
            None => if waited >= DEADLINE { Wait::GiveUp } else { Wait::Again },
        },
        r == waits(waited, exited),
{
    match exited {
        Some(ok) => Wait::Done(ok),
        None => if waited >= DEADLINE {
            Wait::GiveUp
        } else {
            Wait::Again
        },
    }
}

/// Whether a codec is one that the hardware decoder is worth using for.
pub open spec fn accelerated(codec: Seq<char>) -> bool {
    codec == "h264"@ || codec == "hevc"@ || codec == "h265"@ || codec == "prores"@
}

/// Hardware decode gate: VideoToolbox only for the codecs it actually
/// accelerates, and only where there is one.
pub fn vt_accel(codec: &str, macos: bool) -> (r: bool)
    ensures
        r == (macos && accelerated(codec@)),
{
    let c = codec.to_owned();
    macos && (c == "h264".to_owned() || c == "hevc".to_owned() || c == "h265".to_owned() || c
        == "prores".to_owned())
}

} // verus!
