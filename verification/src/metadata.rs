//! What a report says of a clip, seen from outside: where each detail is taken
//! from.

use crate::numerals::{a_rate_is_its_fraction, decimals_are_read_as_they_stand, is_nearest};
use crate::probe::{
    describes, first_video, outcome, rotation_of, side_rotation, InfoState, Json, ProbeError,
};
use crate::readout::{all_digits, digits, power_of_ten, value};
use crate::timing::quarters_are_nearest;
use crate::units::TIME_LIMIT;
use vstd::prelude::*;

verus! {

proof fn lemma_first_video(streams: Seq<Json>, i: int)
    requires
        0 <= i <= streams.len(),
    ensures
        ({
            let at = first_video(streams, i);
            &&& i <= at <= streams.len()
            &&& at < streams.len() ==> streams[at].member("codec_type"@) == Json::Text("video"@)
            &&& forall|k: int|
                i <= k < at ==> (#[trigger] streams[k]).member("codec_type"@) != Json::Text(
                    "video"@,
                )
        }),
    decreases streams.len() - i,
{
    if i < streams.len() && streams[i].member("codec_type"@).text() != Some("video"@) {
        lemma_first_video(streams, i + 1);
        assert(streams[i].member("codec_type"@) != Json::Text("video"@));
    }
}

/// A clip is described by its first video stream. Without one there is nothing
/// to describe, nor without a width and a height.
pub proof fn the_first_video_stream_counts(
    r: Result<InfoState, ProbeError>,
    report: Json,
    path: Seq<char>,
    file_len: Option<u64>,
    at: int,
)
    requires
        outcome(r, report, path, file_len),
    ensures
        ({
            let streams = report.member("streams"@).items();
            let first = 0 <= at < streams.len() && streams[at].member("codec_type"@) == Json::Text(
                "video"@,
            ) && forall|k: int|
                0 <= k < at ==> (#[trigger] streams[k]).member("codec_type"@) != Json::Text(
                    "video"@,
                );
            let none = forall|k: int|
                0 <= k < streams.len() ==> (#[trigger] streams[k]).member("codec_type"@)
                    != Json::Text("video"@);
            &&& none ==> r == Err::<InfoState, ProbeError>(ProbeError::NoVideoStream)
            &&& first ==> {
                let s = streams[at];
                let (w, h) = (s.member("width"@).whole(), s.member("height"@).whole());
                &&& w is None || h is None || w == Some(0u64) || h == Some(0u64) ==> r == Err::<
                    InfoState,
                    ProbeError,
                >(ProbeError::NoDimensions)
                &&& (w matches Some(a) && 0 < a <= u32::MAX) && (h matches Some(b) && 0 < b
                    <= u32::MAX) ==> (r matches Ok(info) && describes(
                    info,
                    report,
                    s,
                    path,
                    file_len,
                ))
            }
        }),
{
    let streams = report.member("streams"@).items();
    lemma_first_video(streams, 0);
    let found = first_video(streams, 0);
    if 0 <= at < streams.len() && streams[at].member("codec_type"@) == Json::Text("video"@)
        && forall|k: int|
        0 <= k < at ==> (#[trigger] streams[k]).member("codec_type"@) != Json::Text("video"@) {
        if found < at {
            assert(streams[found].member("codec_type"@) != Json::Text("video"@));
        }
        if at < found {
            assert(streams[at].member("codec_type"@) != Json::Text("video"@));
        }
        assert(found == at);
    }
    if found < streams.len() {
        assert(streams[found].member("codec_type"@) == Json::Text("video"@));
    }
}

/// A clip's dimensions are as it is displayed: turned where the stream is a
/// quarter turn off, to the nearest, and as reported where it is not.
pub proof fn dimensions_are_as_displayed(
    info: InfoState,
    report: Json,
    stream: Json,
    path: Seq<char>,
    file_len: Option<u64>,
    w: u32,
    h: u32,
    k: int,
)
    requires
        describes(info, report, stream, path, file_len),
        stream.member("width"@).whole() == Some(w as u64),
        stream.member("height"@).whole() == Some(h as u64),
    ensures
        info.path == path,
        info.rotation is None ==> info.width == w && info.height == h,
        info.rotation matches Some(r) ==> (-44_000_000_000 <= r - k * 90_000_000_000
            <= 44_000_000_000 ==> {
            &&& k % 2 == 0 ==> info.width == w && info.height == h
            &&& k % 2 == 1 ==> info.width == h && info.height == w
        }),
{
    if info.rotation is Some {
        quarters_are_nearest(info.rotation->0 as int);
    }
}

/// A stream's side data tell its rotation, else its tag does; without either it
/// has none.
pub proof fn side_data_go_before_the_tag(stream: Json, entry: Json, text: Seq<char>, rest: Seq<Json>)
    requires
        stream.member("side_data_list"@) == Json::List(seq![entry] + rest),
        entry.member("rotation"@) matches Json::Number { text: t, .. } && t == text,
        crate::parse::decimal_units(text) is Some,
    ensures
        rotation_of(stream) == crate::parse::decimal_units(text),
{
    let list = seq![entry] + rest;
    assert(list[0] == entry);
    reveal_with_fuel(side_rotation, 2);
}

/// Without side data the tag tells.
pub proof fn the_tag_tells_where_side_data_do_not(stream: Json, text: Seq<char>)
    requires
        stream.member("side_data_list"@).items().len() == 0,
        stream.member("tags"@).member("rotate"@) == Json::Text(text),
    ensures
        rotation_of(stream) == crate::parse::decimal_units(text),
{
}

/// The average frame rate is the clip's where it is a rate; else the base rate
/// is, and where that is none either, thirty frames a second.
pub proof fn the_average_rate_goes_before_the_base_rate(
    info: InfoState,
    report: Json,
    stream: Json,
    path: Seq<char>,
    file_len: Option<u64>,
    num: nat,
    den: nat,
)
    requires
        describes(info, report, stream, path, file_len),
        0 < num <= 1_000_000_000,
        0 < den <= 4_000_000_000,
    ensures
        ({
            let text = Json::Text(digits(num).push('/') + digits(den));
            let avg = stream.member("avg_frame_rate"@);
            let base = stream.member("r_frame_rate"@);
            let none = Json::Text(digits(0).push('/') + digits(0));
            &&& avg == text ==> is_nearest(info.fps, (num * 1_000_000_000) as int, den as int)
            &&& (avg is Null || avg == none) && base == text ==> is_nearest(
                info.fps,
                (num * 1_000_000_000) as int,
                den as int,
            )
            &&& (avg is Null || avg == none) && (base is Null || base == none) ==> info.fps
                == 30_000_000_000
        }),
{
    a_rate_is_its_fraction(num, den);
    a_rate_is_its_fraction(0, 0);
}

/// The stream's own length goes before the file's; without either it is 0, which
/// is not known.
pub proof fn the_streams_length_goes_before_the_files(
    info: InfoState,
    report: Json,
    stream: Json,
    path: Seq<char>,
    file_len: Option<u64>,
    whole: Seq<char>,
    part: Seq<char>,
)
    requires
        describes(info, report, stream, path, file_len),
        all_digits(whole),
        all_digits(part),
        whole.len() >= 1,
        part.len() <= 9,
        value(whole + part) * power_of_ten((9 - part.len()) as nat) <= TIME_LIMIT,
        value(whole + part) * power_of_ten((9 - part.len()) as nat) >= 0,
    ensures
        ({
            let text = Json::Text(whole.push('.') + part);
            let v = value(whole + part) * power_of_ten((9 - part.len()) as nat);
            let own = stream.member("duration"@);
            let file = report.member("format"@).member("duration"@);
            &&& own == text ==> info.duration == v
            &&& own is Null && file == text ==> info.duration == v
            &&& own is Null && file is Null ==> info.duration == 0
        }),
{
    decimals_are_read_as_they_stand(whole, part);
}

/// The other details: the stream's formats, or a question mark; its bit rate,
/// else the file's; and the file's size as reported, else as it is on disk.
pub proof fn details_come_from_the_stream_first(
    info: InfoState,
    report: Json,
    stream: Json,
    path: Seq<char>,
    file_len: Option<u64>,
    n: u64,
    text: Seq<char>,
)
    requires
        describes(info, report, stream, path, file_len),
    ensures
        ({
            let format = report.member("format"@);
            let number = Json::Text(digits(n as nat));
            &&& stream.member("codec_name"@) == Json::Text(text) ==> info.codec == text
            &&& stream.member("codec_name"@) is Null ==> info.codec == "?"@
            &&& stream.member("pix_fmt"@) == Json::Text(text) ==> info.pix_fmt == text
            &&& stream.member("pix_fmt"@) is Null ==> info.pix_fmt == "?"@
            &&& stream.member("bit_rate"@) == number ==> info.bit_rate == Some(n)
            &&& stream.member("bit_rate"@) is Null && format.member("bit_rate"@) == number
                ==> info.bit_rate == Some(n)
            &&& stream.member("bit_rate"@) is Null && format.member("bit_rate"@) is Null
                ==> info.bit_rate is None
            &&& format.member("size"@) == number ==> info.file_size == n
            &&& format.member("size"@) is Null && file_len == Some(n) ==> info.file_size == n
            &&& format.member("size"@) is Null && file_len is None ==> info.file_size == 0
        }),
{
    crate::numerals::whole_numbers_read_back(n as nat);
}

/// The codecs that the hardware decodes, and no others.
pub proof fn the_hardware_decodes_its_codecs(codec: Seq<char>)
    ensures
        crate::probe::accelerated(codec) <==> codec == "h264"@ || codec == "hevc"@ || codec
            == "h265"@ || codec == "prores"@,
{
}

/// A length of time is read as it stands, of either sign, as far as the clock
/// can run; beyond that it is held there.
pub proof fn lengths_are_read_as_they_stand(j: crate::probe::Json)
    ensures
        ({
            let end = 0x1000_0000_0000_0000int;
            match crate::probe::decimal_in(j) {
                None => crate::probe::seconds_in(j) is None,
                Some(v) => crate::probe::seconds_in(j) matches Some(t) && {
                    &&& -end <= v <= end ==> t == v
                    &&& v > end ==> t == end
                    &&& v < -end ==> t == -end
                },
            }
        }),
{
}

} // verus!
