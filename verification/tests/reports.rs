use abner::parse::{parse_decimal, parse_whole};
use abner::paths::{file_name, parent};
use abner::probe::{
    info_from_report, probe, quarter_turns, vt_accel, wait_step, ProbeError, Wait, DEADLINE,
};
use abner::readout::{ellipsize, ellipsize_left, fmt_size, fmt_time};
use std::path::Path;

const ONE: i64 = 1_000_000_000;

const REPORT: &str = r#"{
  "streams": [
    { "codec_type": "audio", "codec_name": "aac", "bit_rate": "128000" },
    {
      "codec_type": "video", "codec_name": "hevc", "pix_fmt": "yuv420p10le",
      "width": 1920, "height": 1080,
      "avg_frame_rate": "30000/1001", "r_frame_rate": "60/1",
      "duration": "12.345678", "bit_rate": "4500000",
      "side_data_list": [ { "type": "x" }, { "rotation": -90 } ]
    }
  ],
  "format": { "duration": "99", "bit_rate": "1", "size": "7654321" }
}"#;

#[test]
fn a_report_describes_its_clip() {
    let info = probe("/clips/a.mov", REPORT.as_bytes(), None).unwrap();
    assert_eq!(info.path, "/clips/a.mov");
    assert_eq!((info.width, info.height), (1_080, 1_920));
    assert_eq!(info.fps, 29_970_029_970);
    assert_eq!(info.duration, 12_345_678_000);
    assert_eq!(info.codec, "hevc");
    assert_eq!(info.pix_fmt, "yuv420p10le");
    assert_eq!(info.bit_rate, Some(4_500_000));
    assert_eq!(info.file_size, 7_654_321);
    assert_eq!(info.rotation, Some(-90 * ONE));
}

#[test]
fn a_sparse_report_falls_back() {
    let text = r#"{"streams":[{"codec_type":"video","width":4,"height":2,
        "avg_frame_rate":"0/0","r_frame_rate":"25/1","tags":{"rotate":"180"}}],
        "format":{"duration":"2.5","bit_rate":"800"}}"#;
    let info = probe("a", text.as_bytes(), Some(77)).unwrap();
    assert_eq!((info.width, info.height), (4, 2));
    assert_eq!(info.fps, 25 * ONE);
    assert_eq!(info.duration, 2_500_000_000);
    assert_eq!(info.codec, "?");
    assert_eq!(info.pix_fmt, "?");
    assert_eq!(info.bit_rate, Some(800));
    assert_eq!(info.file_size, 77);
    assert_eq!(info.rotation, Some(180 * ONE));

    let text = r#"{"streams":[{"codec_type":"video","width":4,"height":2}]}"#;
    let info = probe("a", text.as_bytes(), None).unwrap();
    assert_eq!(info.fps, 30 * ONE);
    assert_eq!(info.duration, 0);
    assert_eq!(info.bit_rate, None);
    assert_eq!(info.file_size, 0);
    assert_eq!(info.rotation, None);
}

#[test]
fn a_rate_may_have_large_parts() {
    let text = r#"{"streams":[{"codec_type":"video","width":4,"height":2,
        "avg_frame_rate":"2147483647/35791394","duration":"inf"}]}"#;
    let info = probe("a", text.as_bytes(), None).unwrap();
    let want = (2_147_483_647.0f64 / 35_791_394.0 * 1e9).round() as i64;
    assert!((info.fps - want).abs() <= 1);
    assert_eq!(info.fps, 60_000_000_196);
    // A length without end is as long as a length gets.
    assert_eq!(info.duration, 1 << 60);
}

#[test]
fn a_report_may_be_of_no_use() {
    let fault = |text: &str| match probe("/x/y.pdf", text.as_bytes(), None) {
        Ok(_) => panic!("{text} was taken"),
        Err(e) => e,
    };
    assert_eq!(fault("{"), ProbeError::Json);
    assert_eq!(fault("{}"), ProbeError::NoVideoStream);
    assert_eq!(fault(r#"{"streams":[{"codec_type":"audio"}]}"#), ProbeError::NoVideoStream);
    assert_eq!(
        fault(r#"{"streams":[{"codec_type":"video","width":0,"height":2}]}"#),
        ProbeError::NoDimensions
    );
    assert_eq!(
        fault(r#"{"streams":[{"codec_type":"video","width":"4","height":2}]}"#),
        ProbeError::NoDimensions
    );
    assert_eq!(ProbeError::Json.message("p"), "ffprobe json");
    assert_eq!(ProbeError::NoVideoStream.message("p"), "no video stream in p");
    assert_eq!(ProbeError::NoDimensions.message("p"), "no dimensions for p");
    assert_eq!(ProbeError::Late.message("p"), "ffprobe did not return within 30s");
}

#[test]
fn a_parsed_report_will_do() {
    let v: serde_json::Value = serde_json::from_str(REPORT).unwrap();
    let info = info_from_report(&v, "b", Some(1)).unwrap();
    assert_eq!(info.codec, "hevc");
    assert_eq!(info.file_size, 7_654_321);
}

#[test]
fn rotation_may_be_a_fraction() {
    let text = r#"{"streams":[{"codec_type":"video","width":4,"height":2,
        "side_data_list":[{"rotation":"x"},{"rotation":89.6}]}]}"#;
    let info = probe("a", text.as_bytes(), None).unwrap();
    assert_eq!(info.rotation, Some(89_600_000_000));
    assert_eq!((info.width, info.height), (2, 4));
}

#[test]
fn quarter_turns_round_away() {
    assert_eq!(quarter_turns(90 * ONE), 1);
    assert_eq!(quarter_turns(45 * ONE), 1);
    assert_eq!(quarter_turns(-45 * ONE), -1);
    assert_eq!(quarter_turns(44 * ONE), 0);
    assert_eq!(quarter_turns(270 * ONE), 3);
}

#[test]
fn hardware_decodes_what_it_is_good_at() {
    for codec in ["h264", "hevc", "h265", "prores"] {
        assert!(vt_accel(codec, true));
        assert!(!vt_accel(codec, false));
    }
    for codec in ["vp9", "av1", "H264", ""] {
        assert!(!vt_accel(codec, true));
    }
}

#[test]
fn numbers_are_read() {
    assert_eq!(parse_whole("0"), Some(0));
    assert_eq!(parse_whole("+12"), Some(12));
    assert_eq!(parse_whole("18446744073709551615"), Some(u64::MAX));
    assert_eq!(parse_whole("18446744073709551616"), None);
    for s in ["", "-1", "1.0", " 1", "+"] {
        assert_eq!(parse_whole(s), None);
        assert!(s.parse::<u64>().is_err());
    }
    for s in ["0", "1.5", "-2.25", ".5", "5.", "1e3", "1E-3", "+7.125", "00012.5"] {
        let want = (s.parse::<f64>().unwrap() * 1e9).round() as i64;
        assert_eq!(parse_decimal(s), Some(want), "{s}");
    }
    for s in ["", ".", "1.2.3", "e3", "1e", "abc", "--1", " 1"] {
        assert_eq!(parse_decimal(s), None, "{s:?}");
        assert!(s.parse::<f64>().is_err());
    }
}

#[test]
fn paths_have_names_and_parents() {
    for p in ["/a/b.mp4", "b.mp4", "/", "", "a/", "..", "a/..", "/a", "a//b//", "./x", "."] {
        let want = Path::new(p).file_name().map(|f| f.to_string_lossy().into_owned());
        assert_eq!(file_name(p), want.unwrap_or_default(), "{p:?}");
        let want = Path::new(p).parent().map(|f| f.to_string_lossy().into_owned());
        assert_eq!(parent(p), want.unwrap_or_default(), "{p:?}");
    }
}

#[test]
fn times_and_sizes_read_well() {
    for t in [0.0, 1.5, 59.9994, 59.9996, 61.0625, 3_725.25] {
        let m = (t / 60.0) as u64;
        let want = format!("{m:02}:{:06.3}", t - m as f64 * 60.0);
        assert_eq!(fmt_time((t * 1e9).round() as i64), want, "{t}");
    }
    assert_eq!(fmt_time(-5), "00:00.000");
    assert_eq!(fmt_size(0), "0.0 MiB");
    assert_eq!(fmt_size(1_572_864), "1.5 MiB");
    assert_eq!(fmt_size(1_073_741_824), "1.00 GiB");
    assert_eq!(fmt_size(1_073_741_823), "1024.0 MiB");
    assert_eq!(fmt_size(5_905_580_032), "5.50 GiB");
}

#[test]
fn long_text_is_cut() {
    assert_eq!(ellipsize("abc", 3), "abc");
    assert_eq!(ellipsize("abcd", 3), "ab…");
    assert_eq!(ellipsize_left("abcd", 3), "…cd");
    assert_eq!(ellipsize_left("abc", 3), "abc");
    assert_eq!(ellipsize("héllo", 4), "hél…");
    assert_eq!(ellipsize("abc", 0), "…");
}

#[test]
fn ffprobe_is_waited_for_thirty_seconds() {
    assert_eq!(DEADLINE, 30_000_000_000);
    assert_eq!(wait_step(0, None), Wait::Again);
    assert_eq!(wait_step(DEADLINE - 1, None), Wait::Again);
    assert_eq!(wait_step(DEADLINE, None), Wait::GiveUp);
    assert_eq!(wait_step(u64::MAX, None), Wait::GiveUp);
    assert_eq!(wait_step(5, Some(true)), Wait::Done(true));
    assert_eq!(wait_step(u64::MAX, Some(false)), Wait::Done(false));
}

#[test]
fn words_stand_for_numbers() {
    let most = 1 << 62;
    for s in ["inf", "Infinity", "+INF", "infINITY"] {
        assert_eq!(parse_decimal(s), Some(most), "{s}");
    }
    assert_eq!(parse_decimal("-inf"), Some(-most));
    assert_eq!(parse_decimal("NaN"), Some(0));
    for s in ["in", "infinit", "nano", "-", "e"] {
        assert_eq!(parse_decimal(s), None, "{s}");
    }
}
