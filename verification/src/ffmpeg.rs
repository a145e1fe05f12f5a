//! ffmpeg invocation: encoder choice, the encode command line, and the
//! reading of ffmpeg's own listings.

use vstd::prelude::*;

use crate::error::AppError;
use crate::numfmt::{digit_char, digits_of, fmt_i32, fmt_u64, int_str};
use crate::path::vviews;
use crate::text::{chars_eq, chars_of, extend_chars, is_whitespace, is_ws, string_of, trim, trim_bounds};

verus! {

/// What probing the system found: the ffmpeg/ffprobe binaries and the
/// hardware HEVC encoders (`"nvenc"`, `"qsv"`, `"amf"`, ...).
#[derive(Debug, Clone)]
pub struct FfmpegStatus {
    pub ffmpeg_path: Option<String>,
    pub ffprobe_path: Option<String>,
    pub ffmpeg_version: Option<String>,
    pub hwaccels: Vec<String>,
}

impl FfmpegStatus {
    /// Both binaries were found.
    pub fn is_ready(&self) -> (r: bool)
        ensures
            r == (self.ffmpeg_path is Some && self.ffprobe_path is Some),
    {
        self.ffmpeg_path.is_some() && self.ffprobe_path.is_some()
    }
}

/// Encoder family the user (or auto-detect) chose.
#[derive(Debug, Clone, Copy, PartialEq, Eq, Structural)]
pub enum Codec {
    /// libx265 (HEVC), software.
    Hevc,
    /// libx264 (H.264), software.
    H264,
    /// NVIDIA hardware HEVC.
    HevcNvenc,
    /// Intel QuickSync HEVC.
    HevcQsv,
    /// AMD VCE HEVC.
    HevcAmf,
}

/// ffmpeg's name of each encoder.
pub open spec fn codec_name(c: Codec) -> Seq<char> {
    match c {
        Codec::Hevc => "libx265"@,
        Codec::H264 => "libx264"@,
        Codec::HevcNvenc => "hevc_nvenc"@,
        Codec::HevcQsv => "hevc_qsv"@,
        Codec::HevcAmf => "hevc_amf"@,
    }
}

/// The hardware encoder an accelerator tag stands for, if any.
pub open spec fn hw_codec(tag: Seq<char>) -> Option<Codec> {
    if tag == "nvenc"@ {
        Some(Codec::HevcNvenc)
    } else if tag == "qsv"@ {
        Some(Codec::HevcQsv)
    } else if tag == "amf"@ {
        Some(Codec::HevcAmf)
    } else {
        None
    }
}

/// The encoder of the first accelerator (in probe order) that has one,
/// else software HEVC.
pub open spec fn auto_codec(tags: Seq<Seq<char>>) -> Codec
    decreases tags.len(),
{
    if tags.len() == 0 {
        Codec::Hevc
    } else {
        match hw_codec(tags[0]) {
            Some(c) => c,
            None => auto_codec(tags.drop_first()),
        }
    }
}

impl Codec {
    /// ffmpeg's `-c:v` name.
    pub fn ffmpeg_name(self) -> (r: &'static str)
        ensures
            r@ == codec_name(self),
    {
        match self {
            Codec::Hevc => "libx265",
            Codec::H264 => "libx264",
            Codec::HevcNvenc => "hevc_nvenc",
            Codec::HevcQsv => "hevc_qsv",
            Codec::HevcAmf => "hevc_amf",
        }
    }

    /// Auto-pick the best available HEVC encoder given a probe.
    pub fn auto_default(status: &FfmpegStatus) -> (r: Codec)
        ensures
            r == auto_codec(status.hwaccels@.map_values(|s: String| s@)),
    {
        let ghost tags = status.hwaccels@.map_values(|s: String| s@);
        let mut i: usize = 0;
        assert(tags.subrange(0, tags.len() as int) =~= tags);
        while i < status.hwaccels.len()
            invariant
                i <= status.hwaccels.len(),
                tags == status.hwaccels@.map_values(|s: String| s@),
                auto_codec(tags) == auto_codec(tags.subrange(i as int, tags.len() as int)),
            decreases status.hwaccels.len() - i,
        {
            let h = status.hwaccels[i].as_str();
            let ghost rest = tags.subrange(i as int, tags.len() as int);
            proof {
                assert(rest[0] == h@);
                assert(rest.drop_first() =~= tags.subrange(i + 1, tags.len() as int));
            }
            if crate::text::str_eq(h, "nvenc") {
                return Codec::HevcNvenc;
            } else if crate::text::str_eq(h, "qsv") {
                return Codec::HevcQsv;
            } else if crate::text::str_eq(h, "amf") {
                return Codec::HevcAmf;
            }
            i = i + 1;
        }
        proof {
            assert(tags.subrange(i as int, tags.len() as int).len() == 0);
        }
        Codec::Hevc
    }

    /// One of the hardware encoders.
    pub fn is_hardware(self) -> (r: bool)
        ensures
            r == (self == Codec::HevcNvenc || self == Codec::HevcQsv || self == Codec::HevcAmf),
    {
        match self {
            Codec::HevcNvenc | Codec::HevcQsv | Codec::HevcAmf => true,
            _ => false,
        }
    }
}

/// The inputs of an encode (preview or full). Times are in milliseconds;
/// with a start and a duration only that segment is encoded.
#[derive(Debug, Clone)]
pub struct EncodeArgs<'a> {
    pub input: &'a str,
    pub output: &'a str,
    pub codec: Codec,
    pub crf: i32,
    pub downscale_720p: bool,
    pub start_millis: Option<u64>,
    pub duration_millis: Option<u64>,
    pub progress_to_stderr: bool,
}

/// Seconds with three decimals (`{:.3}`) of a millisecond count.
pub open spec fn millis_str(ms: nat) -> Seq<char> {
    let r = ms % 1000;
    digits_of(ms / 1000) + seq!['.', digit_char(r / 100), digit_char((r / 10) % 10), digit_char(r % 10)]
}

/// The flag that sets the quality of each encoder.
pub open spec fn quality_flag(c: Codec) -> Seq<char> {
    match c {
        Codec::Hevc | Codec::H264 => "-crf"@,
        Codec::HevcNvenc | Codec::HevcAmf => "-cq"@,
        Codec::HevcQsv => "-global_quality"@,
    }
}

pub open spec fn seg_head() -> Seq<Seq<char>> {
    seq!["-y"@, "-hide_banner"@]
}

pub open spec fn seg_seek(start: Option<u64>) -> Seq<Seq<char>> {
    match start {
        Some(s) => seq!["-ss"@, millis_str(s as nat)],
        None => seq![],
    }
}

pub open spec fn seg_input(input: Seq<char>, duration: Option<u64>) -> Seq<Seq<char>> {
    seq!["-i"@, input] + match duration {
        Some(d) => seq!["-t"@, millis_str(d as nat)],
        None => seq![],
    }
}

pub open spec fn seg_scale(downscale: bool) -> Seq<Seq<char>> {
    if downscale {
        seq!["-vf"@, "scale=-2:720"@]
    } else {
        seq![]
    }
}

pub open spec fn seg_codec(codec: Codec, crf: int) -> Seq<Seq<char>> {
    seq!["-c:v"@, codec_name(codec), quality_flag(codec), int_str(crf)] + if codec == Codec::Hevc
        || codec == Codec::H264 {
        seq!["-preset"@, "medium"@]
    } else {
        seq![]
    }
}

pub open spec fn seg_tail(progress: bool, output: Seq<char>) -> Seq<Seq<char>> {
    seq!["-c:a"@, "copy"@, "-c:s"@, "copy"@] + (if progress {
        seq!["-progress"@, "pipe:2"@, "-nostats"@]
    } else {
        seq![]
    }) + seq![output]
}

/// The ffmpeg argument list of an encode.
pub open spec fn argv_spec(
    input: Seq<char>,
    output: Seq<char>,
    codec: Codec,
    crf: int,
    downscale: bool,
    start: Option<u64>,
    duration: Option<u64>,
    progress: bool,
) -> Seq<Seq<char>> {
    seg_head() + seg_seek(start) + seg_input(input, duration) + seg_scale(downscale) + seg_codec(
        codec,
        crf,
    ) + seg_tail(progress, output)
}

pub open spec fn arg_views(v: Seq<String>) -> Seq<Seq<char>> {
    v.map_values(|s: String| s@)
}

fn millis_text(ms: u64) -> (r: String)
    ensures
        r@ == millis_str(ms as nat),
{
    let mut v = fmt_u64(ms / 1000);
    let r: u64 = ms % 1000;
    v.push('.');
    v.push(((r / 100) as u8 + 48) as char);
    v.push((((r / 10) % 10) as u8 + 48) as char);
    v.push(((r % 10) as u8 + 48) as char);
    let s = string_of(&v);
    proof {
        assert(s@ =~= millis_str(ms as nat));
    }
    s
}

fn push_arg(argv: &mut Vec<String>, a: String)
    ensures
        arg_views(final(argv)@) == arg_views(old(argv)@).push(a@),
{
    argv.push(a);
    proof {
        assert(arg_views(argv@) =~= arg_views(old(argv)@).push(a@));
    }
}

fn push_seek(argv: &mut Vec<String>, start: Option<u64>)
    ensures
        arg_views(final(argv)@) == arg_views(old(argv)@) + seg_seek(start),
{
    match start {
        Some(s) => {
            push_arg(argv, "-ss".to_owned());
            push_arg(argv, millis_text(s));
        },
        None => {},
    }
    assert(arg_views(argv@) =~= arg_views(old(argv)@) + seg_seek(start));
}

fn push_input(argv: &mut Vec<String>, input: &str, duration: Option<u64>)
    ensures
        arg_views(final(argv)@) == arg_views(old(argv)@) + seg_input(input@, duration),
{
    push_arg(argv, "-i".to_owned());
    push_arg(argv, input.to_owned());
    match duration {
        Some(d) => {
            push_arg(argv, "-t".to_owned());
            push_arg(argv, millis_text(d));
        },
        None => {},
    }
    assert(arg_views(argv@) =~= arg_views(old(argv)@) + seg_input(input@, duration));
}

fn push_scale(argv: &mut Vec<String>, downscale: bool)
    ensures
        arg_views(final(argv)@) == arg_views(old(argv)@) + seg_scale(downscale),
{
    if downscale {
        push_arg(argv, "-vf".to_owned());
        push_arg(argv, "scale=-2:720".to_owned());
    }
    assert(arg_views(argv@) =~= arg_views(old(argv)@) + seg_scale(downscale));
}

fn push_codec(argv: &mut Vec<String>, codec: Codec, crf: i32)
    ensures
        arg_views(final(argv)@) == arg_views(old(argv)@) + seg_codec(codec, crf as int),
{
    push_arg(argv, "-c:v".to_owned());
    push_arg(argv, codec.ffmpeg_name().to_owned());
    let q = match codec {
        Codec::Hevc | Codec::H264 => "-crf",
        Codec::HevcNvenc | Codec::HevcAmf => "-cq",
        Codec::HevcQsv => "-global_quality",
    };
    push_arg(argv, q.to_owned());
    push_arg(argv, string_of(&fmt_i32(crf)));
    let software = match codec {
        Codec::Hevc | Codec::H264 => true,
        _ => false,
    };
    if software {
        push_arg(argv, "-preset".to_owned());
        push_arg(argv, "medium".to_owned());
    }
    assert(arg_views(argv@) =~= arg_views(old(argv)@) + seg_codec(codec, crf as int));
}

fn push_tail(argv: &mut Vec<String>, progress: bool, output: &str)
    ensures
        arg_views(final(argv)@) == arg_views(old(argv)@) + seg_tail(progress, output@),
{
    push_arg(argv, "-c:a".to_owned());
    push_arg(argv, "copy".to_owned());
    push_arg(argv, "-c:s".to_owned());
    push_arg(argv, "copy".to_owned());
    if progress {
        push_arg(argv, "-progress".to_owned());
        push_arg(argv, "pipe:2".to_owned());
        push_arg(argv, "-nostats".to_owned());
    }
    push_arg(argv, output.to_owned());
    assert(arg_views(argv@) =~= arg_views(old(argv)@) + seg_tail(progress, output@));
}

/// Build the ffmpeg argv for an encode (preview or full): seek before
/// the input, optional 720p downscale, the encoder with its quality flag
/// (and the `medium` preset for software encoders), audio and subtitles
/// copied through, optional progress on stderr, then the output.
pub fn build_encode_argv(args: &EncodeArgs<'_>) -> (r: Vec<String>)
    ensures
        arg_views(r@) == argv_spec(
            args.input@,
            args.output@,
            args.codec,
            args.crf as int,
            args.downscale_720p,
            args.start_millis,
            args.duration_millis,
            args.progress_to_stderr,
        ),
{
    let mut argv: Vec<String> = Vec::new();
    push_arg(&mut argv, "-y".to_owned());
    push_arg(&mut argv, "-hide_banner".to_owned());
    assert(arg_views(argv@) =~= seg_head());
    push_seek(&mut argv, args.start_millis);
    push_input(&mut argv, args.input, args.duration_millis);
    push_scale(&mut argv, args.downscale_720p);
    push_codec(&mut argv, args.codec, args.crf);
    push_tail(&mut argv, args.progress_to_stderr, args.output);
    argv
}


/// The encoder and its quality setting in an encode's argument list: right
/// after the optional seek (two arguments), the input with its optional
/// duration (two or four), and the optional downscale filter (two), come
/// `-c:v <encoder> <flag> <quality>`. The software encoders (`libx265`,
/// `libx264`) take `-crf`, NVENC and AMF take `-cq`, QSV takes
/// `-global_quality`; only the software encoders get a preset, `medium`.
pub proof fn law_encode_quality_flag(
    input: Seq<char>,
    output: Seq<char>,
    codec: Codec,
    crf: int,
    downscale: bool,
    start: Option<u64>,
    duration: Option<u64>,
    progress: bool,
)
    ensures
        ({
            let a = argv_spec(input, output, codec, crf, downscale, start, duration, progress);
            let k: int = 4 + (if start is Some {
                2int
            } else {
                0int
            }) + (if duration is Some {
                2int
            } else {
                0int
            }) + (if downscale {
                2int
            } else {
                0int
            });
            &&& k + 4 <= a.len()
            &&& a[k] == "-c:v"@
            &&& a[k + 3] == int_str(crf)
            &&& codec == Codec::Hevc ==> a[k + 1] == "libx265"@ && a[k + 2] == "-crf"@
            &&& codec == Codec::H264 ==> a[k + 1] == "libx264"@ && a[k + 2] == "-crf"@
            &&& codec == Codec::HevcNvenc ==> a[k + 1] == "hevc_nvenc"@ && a[k + 2] == "-cq"@
            &&& codec == Codec::HevcAmf ==> a[k + 1] == "hevc_amf"@ && a[k + 2] == "-cq"@
            &&& codec == Codec::HevcQsv ==> a[k + 1] == "hevc_qsv"@ && a[k + 2] == "-global_quality"@
            &&& (codec == Codec::Hevc || codec == Codec::H264) ==> a[k + 4] == "-preset"@ && a[k + 5]
                == "medium"@
            &&& !(codec == Codec::Hevc || codec == Codec::H264) ==> a[k + 4] == "-c:a"@
        }),
{
    let a = argv_spec(input, output, codec, crf, downscale, start, duration, progress);
    let pre = seg_head() + seg_seek(start) + seg_input(input, duration) + seg_scale(downscale);
    let c = seg_codec(codec, crf);
    let t = seg_tail(progress, output);
    assert(a == pre + c + t);
    let k = pre.len() as int;
    assert(k == 4 + (if start is Some {
        2int
    } else {
        0int
    }) + (if duration is Some {
        2int
    } else {
        0int
    }) + (if downscale {
        2int
    } else {
        0int
    }));
    assert forall|j: int| 0 <= j < c.len() implies #[trigger] a[k + j] == c[j] by {
        assert((pre + c + t)[k + j] == c[j]);
    }
    assert(a[k + c.len()] == t[0]) by {
        assert((pre + c + t)[k + c.len()] == t[0]);
    }
    assert(a[k] == c[0]);
    assert(a[k + 1] == c[1]);
    assert(a[k + 2] == c[2]);
    assert(a[k + 3] == c[3]);
    if codec == Codec::Hevc || codec == Codec::H264 {
        assert(a[k + 4] == c[4]);
        assert(a[k + 5] == c[5]);
    }
}

/// The frame of an encode's argument list: it starts `-y -hide_banner`,
/// then `-ss <start>` when a start is given (the seek goes before the
/// input), then `-i <input>` and `-t <duration>` when a duration is given,
/// then `-vf scale=-2:720` when downscaling; it ends with audio and
/// subtitles copied through (`-c:a copy -c:s copy`), progress on stderr
/// (`-progress pipe:2 -nostats`) when asked, and the output last.
pub proof fn law_encode_argv_frame(
    input: Seq<char>,
    output: Seq<char>,
    codec: Codec,
    crf: int,
    downscale: bool,
    start: Option<u64>,
    duration: Option<u64>,
    progress: bool,
)
    ensures
        ({
            let a = argv_spec(input, output, codec, crf, downscale, start, duration, progress);
            let i: int = 2 + (if start is Some {
                2int
            } else {
                0int
            });
            let v: int = i + 2 + (if duration is Some {
                2int
            } else {
                0int
            });
            let n = a.len() as int;
            &&& a[0] == "-y"@ && a[1] == "-hide_banner"@
            &&& start matches Some(st) ==> a[2] == "-ss"@ && a[3] == millis_str(st as nat)
            &&& a[i] == "-i"@ && a[i + 1] == input
            &&& duration matches Some(du) ==> a[i + 2] == "-t"@ && a[i + 3] == millis_str(du as nat)
            &&& downscale ==> a[v] == "-vf"@ && a[v + 1] == "scale=-2:720"@
            &&& !downscale ==> a[v] == "-c:v"@
            &&& a[n - 1] == output
            &&& progress ==> a[n - 4] == "-progress"@ && a[n - 3] == "pipe:2"@ && a[n - 2] == "-nostats"@
                && a[n - 8] == "-c:a"@ && a[n - 7] == "copy"@ && a[n - 6] == "-c:s"@ && a[n - 5] == "copy"@
            &&& !progress ==> a[n - 5] == "-c:a"@ && a[n - 4] == "copy"@ && a[n - 3] == "-c:s"@ && a[n - 2]
                == "copy"@
        }),
{
    let a = argv_spec(input, output, codec, crf, downscale, start, duration, progress);
    let h = seg_head();
    let sk = seg_seek(start);
    let inp = seg_input(input, duration);
    let sc = seg_scale(downscale);
    let c = seg_codec(codec, crf);
    let t = seg_tail(progress, output);
    let pre = h + sk + inp + sc + c;
    assert(a == pre + t);
    assert forall|j: int| 0 <= j < pre.len() implies #[trigger] a[j] == pre[j] by {}
    assert forall|j: int| 0 <= j < t.len() implies #[trigger] a[pre.len() + j] == t[j] by {}
    assert(pre[0] == h[0] && pre[1] == h[1]);
    let i: int = 2 + sk.len() as int;
    if start is Some {
        assert(pre[2] == sk[0] && pre[3] == sk[1]);
    }
    assert(pre[i] == inp[0] && pre[i + 1] == inp[1]);
    if duration is Some {
        assert(pre[i + 2] == inp[2] && pre[i + 3] == inp[3]);
    }
    let v: int = i + inp.len() as int;
    if downscale {
        assert(pre[v] == sc[0] && pre[v + 1] == sc[1]);
    } else {
        assert(pre[v] == c[0]);
    }
    let n = a.len() as int;
    assert(t[t.len() - 1] == output);
    assert(a[n - 1] == t[t.len() - 1]);
    if progress {
        assert(a[n - 8] == t[0] && a[n - 7] == t[1] && a[n - 6] == t[2] && a[n - 5] == t[3]);
        assert(a[n - 4] == t[4] && a[n - 3] == t[5] && a[n - 2] == t[6]);
    } else {
        assert(a[n - 5] == t[0] && a[n - 4] == t[1] && a[n - 3] == t[2] && a[n - 2] == t[3]);
    }
}

/// `line` without a final `\r`.
pub open spec fn strip_cr(line: Seq<char>) -> Seq<char> {
    if line.len() > 0 && line.last() == '\r' {
        line.drop_last()
    } else {
        line
    }
}

/// `str::lines` from position `i`, with the current line `cur` and the
/// lines `acc` found so far.
pub open spec fn lines_from(s: Seq<char>, i: int, cur: Seq<char>, acc: Seq<Seq<char>>) -> Seq<
    Seq<char>,
>
    decreases s.len() - i,
{
    if i >= s.len() {
        if cur.len() > 0 {
            acc.push(cur)
        } else {
            acc
        }
    } else if s[i] == '\n' {
        lines_from(s, i + 1, seq![], acc.push(strip_cr(cur)))
    } else {
        lines_from(s, i + 1, cur.push(s[i]), acc)
    }
}

/// `str::lines`: split at `\n` (dropping a `\r` before it); no final
/// empty line.
pub open spec fn lines_of(s: Seq<char>) -> Seq<Seq<char>> {
    lines_from(s, 0, seq![], seq![])
}

/// `str::split_whitespace` from position `i`.
pub open spec fn words_from(s: Seq<char>, i: int, cur: Seq<char>, acc: Seq<Seq<char>>) -> Seq<
    Seq<char>,
>
    decreases s.len() - i,
{
    if i >= s.len() {
        if cur.len() > 0 {
            acc.push(cur)
        } else {
            acc
        }
    } else if is_ws(s[i]) {
        words_from(s, i + 1, seq![], if cur.len() > 0 {
            acc.push(cur)
        } else {
            acc
        })
    } else {
        words_from(s, i + 1, cur.push(s[i]), acc)
    }
}

/// `str::split_whitespace`.
pub open spec fn words_of(s: Seq<char>) -> Seq<Seq<char>> {
    words_from(s, 0, seq![], seq![])
}

fn lines_exec(s: &Vec<char>) -> (r: Vec<Vec<char>>)
    ensures
        vviews(r@) == lines_of(s@),
{
    let mut acc: Vec<Vec<char>> = Vec::new();
    let mut cur: Vec<char> = Vec::new();
    let mut i: usize = 0;
    assert(vviews(acc@) =~= Seq::<Seq<char>>::empty());
    while i < s.len()
        invariant
            i <= s.len(),
            lines_of(s@) == lines_from(s@, i as int, cur@, vviews(acc@)),
        decreases s.len() - i,
    {
        if s[i] == '\n' {
            let ghost prev = vviews(acc@);
            let mut line = cur;
            if line.len() > 0 && line[line.len() - 1] == '\r' {
                line.pop();
            }
            proof {
                assert(line@ == strip_cr(cur@));
            }
            acc.push(line);
            proof {
                assert(vviews(acc@) =~= prev.push(strip_cr(cur@)));
            }
            cur = Vec::new();
            assert(cur@ =~= Seq::<char>::empty());
        } else {
            cur.push(s[i]);
        }
        i = i + 1;
    }
    if cur.len() > 0 {
        let ghost prev = vviews(acc@);
        let ghost c = cur@;
        acc.push(cur);
        proof {
            assert(vviews(acc@) =~= prev.push(c));
        }
    }
    acc
}

fn words_exec(s: &Vec<char>) -> (r: Vec<Vec<char>>)
    ensures
        vviews(r@) == words_of(s@),
{
    let mut acc: Vec<Vec<char>> = Vec::new();
    let mut cur: Vec<char> = Vec::new();
    let mut i: usize = 0;
    assert(vviews(acc@) =~= Seq::<Seq<char>>::empty());
    while i < s.len()
        invariant
            i <= s.len(),
            words_of(s@) == words_from(s@, i as int, cur@, vviews(acc@)),
        decreases s.len() - i,
    {
        if is_whitespace(s[i]) {
            if cur.len() > 0 {
                let ghost prev = vviews(acc@);
                let ghost c = cur@;
                acc.push(cur);
                proof {
                    assert(vviews(acc@) =~= prev.push(c));
                }
            }
            cur = Vec::new();
            assert(cur@ =~= Seq::<char>::empty());
        } else {
            cur.push(s[i]);
        }
        i = i + 1;
    }
    if cur.len() > 0 {
        let ghost prev = vviews(acc@);
        let ghost c = cur@;
        acc.push(cur);
        proof {
            assert(vviews(acc@) =~= prev.push(c));
        }
    }
    acc
}

/// The version token of `ffmpeg -version` output: the third word of its
/// first line, when the first two are `ffmpeg version`.
pub open spec fn version_spec(text: Seq<char>) -> Option<Seq<char>> {
    let ls = lines_of(text);
    if ls.len() == 0 {
        None
    } else {
        let w = words_of(ls[0]);
        if w.len() >= 3 && w[0] == "ffmpeg"@ && w[1] == "version"@ {
            Some(w[2])
        } else {
            None
        }
    }
}

/// Read ffmpeg's `-version` output and pick a short version string.
pub fn parse_version_output(text: &str) -> (r: Option<String>)
    ensures
        match r {
            Some(v) => version_spec(text@) == Some(v@),
            None => version_spec(text@) is None,
        },
{
    let ls = lines_exec(&chars_of(text));
    if ls.len() == 0 {
        return None;
    }
    proof {
        assert(vviews(ls@)[0] == ls@[0]@);
    }
    let w = words_exec(&ls[0]);
    if w.len() < 3 {
        return None;
    }
    proof {
        assert(vviews(w@)[0] == w@[0]@);
        assert(vviews(w@)[1] == w@[1]@);
        assert(vviews(w@)[2] == w@[2]@);
    }
    if !chars_eq(&w[0], &chars_of("ffmpeg")) || !chars_eq(&w[1], &chars_of("version")) {
        return None;
    }
    Some(string_of(&w[2]))
}

/// `needle` occurs in `hay`.
pub open spec fn contains_seq(hay: Seq<char>, needle: Seq<char>) -> bool {
    exists|i: int| 0 <= i <= hay.len() - needle.len() && #[trigger] hay.subrange(i, i + needle.len()) == needle
}

fn contains_exec(hay: &Vec<char>, needle: &Vec<char>) -> (r: bool)
    ensures
        r == contains_seq(hay@, needle@),
{
    if needle.len() > hay.len() {
        return false;
    }
    let mut i: usize = 0;
    while i <= hay.len() - needle.len()
        invariant
            needle.len() <= hay.len(),
            i <= hay.len() - needle.len() + 1,
            forall|k: int| 0 <= k < i ==> #[trigger] hay@.subrange(k, k + needle.len()) != needle@,
        decreases hay.len() - i,
    {
        let mut j: usize = 0;
        let mut same = true;
        while j < needle.len()
            invariant
                j <= needle.len(),
                i + needle.len() <= hay.len(),
                same == (forall|m: int| 0 <= m < j ==> hay@[i + m] == needle@[m]),
            decreases needle.len() - j,
        {
            if hay[i + j] != needle[j] {
                same = false;
            }
            j = j + 1;
        }
        if same {
            proof {
                assert(hay@.subrange(i as int, i + needle.len()) =~= needle@);
            }
            return true;
        }
        proof {
            let m = choose|m: int| 0 <= m < needle.len() && hay@[i + m] != needle@[m];
            assert(hay@.subrange(i as int, i + needle.len())[m] != needle@[m]);
        }
        i = i + 1;
    }
    false
}

/// The accelerator tags looked for, in order.
pub open spec fn hw_tags() -> Seq<Seq<char>> {
    seq!["nvenc"@, "qsv"@, "amf"@, "videotoolbox"@, "vaapi"@]
}

/// `out` after looking for the first `k` tags in `line`.
pub open spec fn tags_step(out: Seq<Seq<char>>, line: Seq<char>, k: int) -> Seq<Seq<char>>
    decreases k,
{
    if k <= 0 {
        out
    } else {
        let prev = tags_step(out, line, k - 1);
        let tag = hw_tags()[k - 1];
        if contains_seq(line, "hevc_"@ + tag) && !prev.contains(tag) {
            prev.push(tag)
        } else {
            prev
        }
    }
}

/// Tags found in the first `n` lines.
pub open spec fn tags_in(lines: Seq<Seq<char>>) -> Seq<Seq<char>>
    decreases lines.len(),
{
    if lines.len() == 0 {
        seq![]
    } else {
        tags_step(tags_in(lines.drop_last()), trim(lines.last()), 5)
    }
}

/// Detect available hardware HEVC encoders by parsing `ffmpeg -encoders`:
/// each tag once, in order of first appearance.
pub fn parse_hwaccels_from_encoders(encoders_output: &str) -> (r: Vec<String>)
    ensures
        arg_views(r@) == tags_in(lines_of(encoders_output@)),
{
    let ls = lines_exec(&chars_of(encoders_output));
    let tags: [&str; 5] = ["nvenc", "qsv", "amf", "videotoolbox", "vaapi"];
    let mut out: Vec<String> = Vec::new();
    let mut i: usize = 0;
    assert(vviews(ls@).take(0) =~= Seq::<Seq<char>>::empty());
    assert(arg_views(out@) =~= Seq::<Seq<char>>::empty());
    while i < ls.len()
        invariant
            i <= ls.len(),
            vviews(ls@) == lines_of(encoders_output@),
            tags@ == seq!["nvenc", "qsv", "amf", "videotoolbox", "vaapi"],
            arg_views(out@) == tags_in(vviews(ls@).take(i as int)),
        decreases ls.len() - i,
    {
        let (a, b) = trim_bounds(&ls[i]);
        let line = crate::text::slice_vec(&ls[i], a, b);
        proof {
            assert(vviews(ls@).take(i + 1).drop_last() =~= vviews(ls@).take(i as int));
            assert(vviews(ls@).take(i + 1).last() == ls@[i as int]@);
        }
        let ghost before = arg_views(out@);
        let mut k: usize = 0;
        while k < 5
            invariant
                k <= 5,
                tags@ == seq!["nvenc", "qsv", "amf", "videotoolbox", "vaapi"],
                arg_views(out@) == tags_step(before, line@, k as int),
            decreases 5 - k,
        {
            proof {
                reveal_strlit("nvenc");
                reveal_strlit("qsv");
                reveal_strlit("amf");
                reveal_strlit("videotoolbox");
                reveal_strlit("vaapi");
                reveal_strlit("hevc_");
            }
            let tag = tags[k];
            proof {
                assert(tag@ == hw_tags()[k as int]);
            }
            let mut needle = chars_of("hevc_");
            crate::text::extend_chars(&mut needle, &chars_of(tag));
            let found = contains_exec(&line, &needle);
            let mut present = false;
            let mut j: usize = 0;
            while j < out.len()
                invariant
                    j <= out.len(),
                    present == (exists|m: int| 0 <= m < j && arg_views(out@)[m] == tag@),
                decreases out.len() - j,
            {
                proof {
                    assert(arg_views(out@)[j as int] == out@[j as int]@);
                }
                if crate::text::str_eq(out[j].as_str(), tag) {
                    present = true;
                }
                j = j + 1;
            }
            proof {
                if present {
                    let m = choose|m: int| 0 <= m < out.len() && arg_views(out@)[m] == tag@;
                    assert(arg_views(out@).contains(tag@));
                }
                if arg_views(out@).contains(tag@) {
                    let m = choose|m: int| 0 <= m < arg_views(out@).len() && arg_views(out@)[m] == tag@;
                    assert(present);
                }
            }
            if found && !present {
                let ghost prev = arg_views(out@);
                out.push(tag.to_owned());
                proof {
                    assert(arg_views(out@) =~= prev.push(tag@));
                }
            }
            k = k + 1;
        }
        i = i + 1;
    }
    proof {
        assert(vviews(ls@).take(ls.len() as int) =~= vviews(ls@));
    }
    out
}


proof fn lemma_tags_step_distinct(out: Seq<Seq<char>>, line: Seq<char>, k: int)
    requires
        out.no_duplicates(),
    ensures
        tags_step(out, line, k).no_duplicates(),
    decreases k,
{
    if k > 0 {
        lemma_tags_step_distinct(out, line, k - 1);
    }
}

/// Each accelerator is reported once, however many listing lines name
/// its encoder.
pub proof fn law_hwaccels_listed_once(lines: Seq<Seq<char>>)
    ensures
        tags_in(lines).no_duplicates(),
    decreases lines.len(),
{
    if lines.len() > 0 {
        law_hwaccels_listed_once(lines.drop_last());
        lemma_tags_step_distinct(tags_in(lines.drop_last()), trim(lines.last()), 5);
    }
}

/// The verdict on a verify run (`ffprobe`/`ffmpeg -v error -i <file> -f
/// null -`): a failing exit is an error naming the kind of verify; a
/// clean exit that still wrote to stderr is an error too, since with
/// `-v error` anything written there is an error; otherwise the file is
/// sound.
pub open spec fn verify_verdict_spec(success: bool, stderr: Seq<char>, label: Seq<char>) -> Result<
    (),
    Seq<char>,
> {
    if !success {
        Err(label + " verify failed: "@ + stderr)
    } else if trim(stderr).len() > 0 {
        Err("verify reported: "@ + stderr)
    } else {
        Ok(())
    }
}

/// Judges a verify run from its exit status and its stderr text.
pub fn verify_verdict(success: bool, stderr: &str, label: &str) -> (r: Result<(), AppError>)
    ensures
        match verify_verdict_spec(success, stderr@, label@) {
            Ok(()) => r is Ok,
            Err(m) => r matches Err(AppError::Other(e)) && e@ == m,
        },
{
    let sv = chars_of(stderr);
    if !success {
        let mut v = chars_of(label);
        extend_chars(&mut v, &chars_of(" verify failed: "));
        extend_chars(&mut v, &sv);
        let m = string_of(&v);
        return Err(AppError::Other(m));
    }
    let (a, b) = trim_bounds(&sv);
    if b > a {
        let mut v = chars_of("verify reported: ");
        extend_chars(&mut v, &sv);
        let m = string_of(&v);
        Err(AppError::Other(m))
    } else {
        Ok(())
    }
}

} // verus!
