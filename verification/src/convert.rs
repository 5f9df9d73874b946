//! Conversion pipeline logic: the format allow-list, the output path
//! policy, the transcoder's argument list, and the job transitions around
//! a conversion run.

use vstd::prelude::*;
use vstd::string::StringExecFns;

use crate::files::{spec_extension_of, spec_file_name, spec_parent_of, spec_stem_of, last_index_of};
use crate::model::{DownloadResponse, DownloadStatus};
use crate::text::{
    spec_i64_chars, spec_lower, str_eq_ignore_ascii_case, lemma_lower_id, to_ascii_lowercase,
    i64_to_string,
};

verus! {

/// The formats a completed artifact may be converted to. Anything else is
/// refused before any external process is spawned.
#[derive(Debug, Clone, Copy, PartialEq, Eq, Structural)]
pub enum ConversionFormat {
    Mp4,
    WebM,
    Mkv,
    Mp3,
    Wav,
    Flac,
    M4A,
    Aac,
}

pub open spec fn spec_format_ext(f: ConversionFormat) -> Seq<char> {
    match f {
        ConversionFormat::Mp4 => "mp4"@,
        ConversionFormat::WebM => "webm"@,
        ConversionFormat::Mkv => "mkv"@,
        ConversionFormat::Mp3 => "mp3"@,
        ConversionFormat::Wav => "wav"@,
        ConversionFormat::Flac => "flac"@,
        ConversionFormat::M4A => "m4a"@,
        ConversionFormat::Aac => "aac"@,
    }
}

/// Which format a (lower-cased) name denotes.
pub open spec fn spec_format_from(sl: Seq<char>) -> Option<ConversionFormat> {
    if sl == "mp4"@ {
        Some(ConversionFormat::Mp4)
    } else if sl == "webm"@ {
        Some(ConversionFormat::WebM)
    } else if sl == "mkv"@ {
        Some(ConversionFormat::Mkv)
    } else if sl == "mp3"@ {
        Some(ConversionFormat::Mp3)
    } else if sl == "wav"@ {
        Some(ConversionFormat::Wav)
    } else if sl == "flac"@ {
        Some(ConversionFormat::Flac)
    } else if sl == "m4a"@ {
        Some(ConversionFormat::M4A)
    } else if sl == "aac"@ {
        Some(ConversionFormat::Aac)
    } else {
        None
    }
}

impl ConversionFormat {
    /// The file extension this format is written under.
    pub fn extension(&self) -> (r: &'static str)
        ensures
            r@ == spec_format_ext(*self),
    {
        match self {
            ConversionFormat::Mp4 => "mp4",
            ConversionFormat::WebM => "webm",
            ConversionFormat::Mkv => "mkv",
            ConversionFormat::Mp3 => "mp3",
            ConversionFormat::Wav => "wav",
            ConversionFormat::Flac => "flac",
            ConversionFormat::M4A => "m4a",
            ConversionFormat::Aac => "aac",
        }
    }

    /// Reads a format name, ignoring ASCII case; names outside the
    /// allow-list yield nothing.
    pub fn from_str(s: &str) -> (r: Option<Self>)
        ensures
            r == spec_format_from(spec_lower(s@)),
    {
        proof {
            reveal_strlit("mp4");
            reveal_strlit("webm");
            reveal_strlit("mkv");
            reveal_strlit("mp3");
            reveal_strlit("wav");
            reveal_strlit("flac");
            reveal_strlit("m4a");
            reveal_strlit("aac");
            lemma_lower_id("mp4"@);
            lemma_lower_id("webm"@);
            lemma_lower_id("mkv"@);
            lemma_lower_id("mp3"@);
            lemma_lower_id("wav"@);
            lemma_lower_id("flac"@);
            lemma_lower_id("m4a"@);
            lemma_lower_id("aac"@);
        }
        if str_eq_ignore_ascii_case(s, "mp4") {
            Some(ConversionFormat::Mp4)
        } else if str_eq_ignore_ascii_case(s, "webm") {
            Some(ConversionFormat::WebM)
        } else if str_eq_ignore_ascii_case(s, "mkv") {
            Some(ConversionFormat::Mkv)
        } else if str_eq_ignore_ascii_case(s, "mp3") {
            Some(ConversionFormat::Mp3)
        } else if str_eq_ignore_ascii_case(s, "wav") {
            Some(ConversionFormat::Wav)
        } else if str_eq_ignore_ascii_case(s, "flac") {
            Some(ConversionFormat::Flac)
        } else if str_eq_ignore_ascii_case(s, "m4a") {
            Some(ConversionFormat::M4A)
        } else if str_eq_ignore_ascii_case(s, "aac") {
            Some(ConversionFormat::Aac)
        } else {
            None
        }
    }

    /// Whether the format is a video container.
    pub fn is_video(&self) -> (r: bool)
        ensures
            r == (self is Mp4 || self is WebM || self is Mkv),
    {
        matches!(self, ConversionFormat::Mp4 | ConversionFormat::WebM | ConversionFormat::Mkv)
    }

    /// Whether the format is audio-only.
    pub fn is_audio(&self) -> (r: bool)
        ensures
            r == (self is Mp3 || self is Wav || self is Flac || self is M4A || self is Aac),
    {
        matches!(
            self,
            ConversionFormat::Mp3
                | ConversionFormat::Wav
                | ConversionFormat::Flac
                | ConversionFormat::M4A
                | ConversionFormat::Aac
        )
    }
}

/// The lower-cased extension a path's file reads under.
pub open spec fn spec_lower_extension(p: Seq<char>) -> Option<Seq<char>> {
    match spec_extension_of(p) {
        Option::Some(e) => Some(spec_lower(e)),
        Option::None => None,
    }
}

/// The extension of a path, lower-cased; `None` when the file name has
/// none.
pub fn get_extension(path: &str) -> (r: Option<String>)
    ensures
        match r {
            Some(e) => spec_lower_extension(path@) == Some(e@),
            None => spec_lower_extension(path@) is None,
        },
{
    let len = path.unicode_len();
    let name_start: usize = match last_index_of(path, '/') {
        Some(i) => i + 1,
        None => 0,
    };
    let name = path.substring_char(name_start, len);
    proof {
        assert(name@ =~= spec_file_name(path@));
    }
    let nlen = name.unicode_len();
    match last_index_of(name, '.') {
        Some(d) if d > 0 => {
            let ext = name.substring_char(d + 1, nlen);
            proof {
                assert(ext@ =~= spec_extension_of(path@)->0);
            }
            Some(to_ascii_lowercase(ext))
        },
        _ => None,
    }
}

/// Extensions that mark a file as video.
pub open spec fn spec_is_video_ext(el: Seq<char>) -> bool {
    el == "mp4"@ || el == "webm"@ || el == "mkv"@ || el == "avi"@ || el == "mov"@ || el == "flv"@
        || el == "m4v"@
}

/// Whether a path names a video file, judged by its extension.
pub fn is_video_file(path: &str) -> (r: bool)
    ensures
        r == match spec_lower_extension(path@) {
            Option::Some(el) => spec_is_video_ext(el),
            Option::None => false,
        },
{
    match get_extension(path) {
        Some(ext) => {
            proof {
                reveal_strlit("mp4");
                reveal_strlit("webm");
                reveal_strlit("mkv");
                reveal_strlit("avi");
                reveal_strlit("mov");
                reveal_strlit("flv");
                reveal_strlit("m4v");
                lemma_lower_id("mp4"@);
                lemma_lower_id("webm"@);
                lemma_lower_id("mkv"@);
                lemma_lower_id("avi"@);
                lemma_lower_id("mov"@);
                lemma_lower_id("flv"@);
                lemma_lower_id("m4v"@);
            }
            let e = ext.as_str();
            if str_eq_ignore_ascii_case(e, "mp4") || str_eq_ignore_ascii_case(e, "webm")
                || str_eq_ignore_ascii_case(e, "mkv") || str_eq_ignore_ascii_case(e, "avi")
                || str_eq_ignore_ascii_case(e, "mov") || str_eq_ignore_ascii_case(e, "flv")
                || str_eq_ignore_ascii_case(e, "m4v") {
                proof {
                    let el = spec_lower_extension(path@)->0;
                    assert(spec_lower(el) == el) by {
                        assert(el == spec_lower(spec_extension_of(path@)->0));
                        assert forall|i: int| 0 <= i < el.len() implies !('A' <= #[trigger] el[i]
                            && el[i] <= 'Z') by {
                            assert(el[i] == crate::text::lower_char(
                                spec_extension_of(path@)->0[i],
                            ));
                        }
                        lemma_lower_id(el);
                    }
                }
                true
            } else {
                proof {
                    let el = spec_lower_extension(path@)->0;
                    assert(spec_lower(el) == el) by {
                        assert forall|i: int| 0 <= i < el.len() implies !('A' <= #[trigger] el[i]
                            && el[i] <= 'Z') by {
                            assert(el[i] == crate::text::lower_char(
                                spec_extension_of(path@)->0[i],
                            ));
                        }
                        lemma_lower_id(el);
                    }
                }
                false
            }
        },
        None => false,
    }
}

/// The conversion targets offered for a file: video containers (and audio
/// extraction) for a video input, audio formats otherwise.
pub fn get_available_formats(input_path: &str) -> (r: Vec<ConversionFormat>)
    ensures
        ({
            let is_video = match spec_lower_extension(input_path@) {
                Option::Some(el) => spec_is_video_ext(el),
                Option::None => false,
            };
            if is_video {
                r@ == seq![
                    ConversionFormat::Mp4,
                    ConversionFormat::WebM,
                    ConversionFormat::Mkv,
                    ConversionFormat::Mp3,
                ]
            } else {
                r@ == seq![
                    ConversionFormat::Mp3,
                    ConversionFormat::Wav,
                    ConversionFormat::Flac,
                    ConversionFormat::M4A,
                    ConversionFormat::Aac,
                ]
            }
        }),
{
    let mut v: Vec<ConversionFormat> = Vec::new();
    if is_video_file(input_path) {
        v.push(ConversionFormat::Mp4);
        v.push(ConversionFormat::WebM);
        v.push(ConversionFormat::Mkv);
        v.push(ConversionFormat::Mp3);
        proof {
            assert(v@ =~= seq![
                ConversionFormat::Mp4,
                ConversionFormat::WebM,
                ConversionFormat::Mkv,
                ConversionFormat::Mp3,
            ]);
        }
    } else {
        v.push(ConversionFormat::Mp3);
        v.push(ConversionFormat::Wav);
        v.push(ConversionFormat::Flac);
        v.push(ConversionFormat::M4A);
        v.push(ConversionFormat::Aac);
        proof {
            assert(v@ =~= seq![
                ConversionFormat::Mp3,
                ConversionFormat::Wav,
                ConversionFormat::Flac,
                ConversionFormat::M4A,
                ConversionFormat::Aac,
            ]);
        }
    }
    v
}

/// Where a conversion writes its output: the input path with its extension
/// replaced; when the target extension equals the input's, the stem gets a
/// format suffix so the input is never silently overwritten.
pub open spec fn spec_output_path(input: Seq<char>, ext: Seq<char>) -> Seq<char> {
    let parent = spec_parent_of(input);
    let stem = spec_stem_of(spec_file_name(input));
    if spec_lower_extension(input) == Some(ext) {
        parent + stem + "_"@ + ext + "."@ + ext
    } else {
        parent + stem + "."@ + ext
    }
}

/// Computes the output path for converting `input_path` to `format`.
/// The result always ends in a dot and the target extension.
pub fn conversion_output_path(input_path: &str, format: ConversionFormat) -> (r: String)
    ensures
        r@ == spec_output_path(input_path@, spec_format_ext(format)),
        r@.len() > spec_format_ext(format).len(),
        r@.subrange(
            r@.len() - spec_format_ext(format).len() - 1,
            r@.len() as int,
        ) == "."@ + spec_format_ext(format),
{
    let len = input_path.unicode_len();
    let name_start: usize = match last_index_of(input_path, '/') {
        Some(i) => i + 1,
        None => 0,
    };
    let parent = input_path.substring_char(0, name_start);
    let name = input_path.substring_char(name_start, len);
    proof {
        assert(parent@ =~= spec_parent_of(input_path@));
        assert(name@ =~= spec_file_name(input_path@));
    }
    let nlen = name.unicode_len();
    let stem_end: usize = match last_index_of(name, '.') {
        Some(i) if i > 0 => i,
        _ => nlen,
    };
    let stem = name.substring_char(0, stem_end);
    proof {
        assert(stem@ =~= spec_stem_of(name@));
    }
    let ext = format.extension();
    let same: bool = match get_extension(input_path) {
        Some(e) => crate::text::str_eq(e.as_str(), ext),
        None => false,
    };
    let mut out = parent.to_owned();
    out.append(stem);
    if same {
        out.append("_");
        out.append(ext);
    }
    out.append(".");
    out.append(ext);
    proof {
        reveal_strlit(".");
        reveal_strlit("_");
        assert(out@ =~= spec_output_path(input_path@, spec_format_ext(format)));
        assert(out@.subrange(
            out@.len() - spec_format_ext(format).len() - 1,
            out@.len() as int,
        ) =~= "."@ + spec_format_ext(format));
    }
    out
}

/// With a target extension equal to the input's own, the planned output
/// path never collides with the input: the suffixed stem makes it longer.
pub proof fn lemma_conversion_output_differs(input: Seq<char>, format: ConversionFormat)
    requires
        spec_lower_extension(input) == Some(spec_format_ext(format)),
    ensures
        spec_output_path(input, spec_format_ext(format)) != input,
{
    reveal_strlit(".");
    reveal_strlit("_");
    let ext = spec_format_ext(format);
    let parent = spec_parent_of(input);
    let name = spec_file_name(input);
    let stem = spec_stem_of(name);
    let d = crate::files::spec_last_index_of(name, '.');
    let e = spec_extension_of(input)->0;
    assert(d > 0);
    assert(e.len() == name.len() - d - 1);
    assert(stem.len() == d);
    assert(spec_lower(e).len() == e.len());
    assert(parent.len() + name.len() == input.len());
    let out = spec_output_path(input, ext);
    assert(out.len() == parent.len() + stem.len() + 2 + 2 * ext.len());
    assert(name.len() == stem.len() + 1 + e.len());
    assert(out.len() == input.len() + ext.len() + 1);
}

/// Codec and bitrate arguments chosen per target format.
pub open spec fn spec_format_args(f: ConversionFormat) -> Seq<Seq<char>> {
    match f {
        ConversionFormat::Mp4 => seq![
            "-c:v"@, "libx264"@, "-c:a"@, "aac"@, "-movflags"@, "+faststart"@,
        ],
        ConversionFormat::WebM => seq![
            "-c:v"@, "libvpx-vp9"@, "-c:a"@, "libopus"@, "-b:v"@, "0"@, "-crf"@, "30"@,
        ],
        ConversionFormat::Mkv => seq!["-c:v"@, "copy"@, "-c:a"@, "copy"@],
        ConversionFormat::Mp3 => seq!["-vn"@, "-c:a"@, "libmp3lame"@, "-b:a"@, "320k"@],
        ConversionFormat::Wav => seq!["-vn"@, "-c:a"@, "pcm_s16le"@],
        ConversionFormat::Flac => seq!["-vn"@, "-c:a"@, "flac"@],
        ConversionFormat::M4A => seq!["-vn"@, "-c:a"@, "aac"@, "-b:a"@, "256k"@],
        ConversionFormat::Aac => seq!["-vn"@, "-c:a"@, "aac"@, "-b:a"@, "256k"@],
    }
}

/// The whole transcoder invocation: input, overwrite and metadata flags,
/// the per-format arguments, the output path, then the machine-readable
/// progress flags.
pub open spec fn spec_ffmpeg_args(input: Seq<char>, output: Seq<char>, f: ConversionFormat) -> Seq<
    Seq<char>,
> {
    seq!["-i"@, input, "-y"@, "-map_metadata"@, "0"@] + spec_format_args(f) + seq![
        output, "-hide_banner"@, "-progress"@, "pipe:1"@, "-loglevel"@, "error"@,
    ]
}

fn push_lit(v: &mut Vec<String>, s: &str)
    ensures
        final(v).deep_view() == old(v).deep_view().push(s@),
{
    v.push(s.to_owned());
    proof {
        assert(v.deep_view() =~= old(v).deep_view().push(s@));
    }
}

/// Builds the argument list the conversion engine is spawned with.
pub fn ffmpeg_args(input_path: &str, output_path: &str, format: ConversionFormat) -> (r: Vec<
    String,
>)
    ensures
        r.deep_view() == spec_ffmpeg_args(input_path@, output_path@, format),
{
    let mut v: Vec<String> = Vec::new();
    push_lit(&mut v, "-i");
    push_lit(&mut v, input_path);
    push_lit(&mut v, "-y");
    push_lit(&mut v, "-map_metadata");
    push_lit(&mut v, "0");
    match format {
        ConversionFormat::Mp4 => {
            push_lit(&mut v, "-c:v");
            push_lit(&mut v, "libx264");
            push_lit(&mut v, "-c:a");
            push_lit(&mut v, "aac");
            push_lit(&mut v, "-movflags");
            push_lit(&mut v, "+faststart");
        },
        ConversionFormat::WebM => {
            push_lit(&mut v, "-c:v");
            push_lit(&mut v, "libvpx-vp9");
            push_lit(&mut v, "-c:a");
            push_lit(&mut v, "libopus");
            push_lit(&mut v, "-b:v");
            push_lit(&mut v, "0");
            push_lit(&mut v, "-crf");
            push_lit(&mut v, "30");
        },
        ConversionFormat::Mkv => {
            push_lit(&mut v, "-c:v");
            push_lit(&mut v, "copy");
            push_lit(&mut v, "-c:a");
            push_lit(&mut v, "copy");
        },
        ConversionFormat::Mp3 => {
            push_lit(&mut v, "-vn");
            push_lit(&mut v, "-c:a");
            push_lit(&mut v, "libmp3lame");
            push_lit(&mut v, "-b:a");
            push_lit(&mut v, "320k");
        },
        ConversionFormat::Wav => {
            push_lit(&mut v, "-vn");
            push_lit(&mut v, "-c:a");
            push_lit(&mut v, "pcm_s16le");
        },
        ConversionFormat::Flac => {
            push_lit(&mut v, "-vn");
            push_lit(&mut v, "-c:a");
            push_lit(&mut v, "flac");
        },
        ConversionFormat::M4A => {
            push_lit(&mut v, "-vn");
            push_lit(&mut v, "-c:a");
            push_lit(&mut v, "aac");
            push_lit(&mut v, "-b:a");
            push_lit(&mut v, "256k");
        },
        ConversionFormat::Aac => {
            push_lit(&mut v, "-vn");
            push_lit(&mut v, "-c:a");
            push_lit(&mut v, "aac");
            push_lit(&mut v, "-b:a");
            push_lit(&mut v, "256k");
        },
    }
    push_lit(&mut v, output_path);
    push_lit(&mut v, "-hide_banner");
    push_lit(&mut v, "-progress");
    push_lit(&mut v, "pipe:1");
    push_lit(&mut v, "-loglevel");
    push_lit(&mut v, "error");
    proof {
        assert(v.deep_view() =~= spec_ffmpeg_args(input_path@, output_path@, format));
    }
    v
}

/// Why a conversion request is refused before any work starts.
#[derive(Debug, Clone, Copy, PartialEq, Eq, Structural)]
pub enum ConversionRefusal {
    /// The job does not stand `Completed`.
    NotCompleted,
    /// The job has no recorded artifact.
    NoFilePath,
    /// The requested format is outside the allow-list.
    UnsupportedFormat,
}

/// Checks the preconditions of a conversion: the job must be `Completed`
/// with an artifact path, and the format must be on the allow-list.
pub fn check_conversion_request(job: &DownloadResponse, format: &str) -> (r: Result<
    (ConversionFormat, String),
    ConversionRefusal,
>)
    ensures
        r is Ok <==> job.status is Completed && job.file_path is Some && spec_format_from(
            spec_lower(format@),
        ) is Some,
        r matches Ok((f, p)) ==> Some(f) == spec_format_from(spec_lower(format@))
            && job.file_path == Some(p),
        !(job.status is Completed) ==> r == Err::<(ConversionFormat, String), _>(
            ConversionRefusal::NotCompleted,
        ),
        job.status is Completed && job.file_path is None ==> r == Err::<
            (ConversionFormat, String),
            _,
        >(ConversionRefusal::NoFilePath),
        job.status is Completed && job.file_path is Some && spec_format_from(
            spec_lower(format@),
        ) is None ==> r == Err::<(ConversionFormat, String), _>(
            ConversionRefusal::UnsupportedFormat,
        ),
{
    if !matches!(job.status, DownloadStatus::Completed) {
        return Err(ConversionRefusal::NotCompleted);
    }
    let path = match &job.file_path {
        Some(p) => p.clone(),
        None => {
            return Err(ConversionRefusal::NoFilePath);
        },
    };
    match ConversionFormat::from_str(format) {
        Some(f) => Ok((f, path)),
        None => Err(ConversionRefusal::UnsupportedFormat),
    }
}

impl DownloadResponse {
    /// Enters the `Converting` sub-state: progress is reset to zero and the
    /// pre-conversion artifact path is remembered once.
    pub fn start_converting(&mut self, message: String)
        requires
            old(self).status is Completed,
        ensures
            final(self).status is Converting,
            final(self).progress == 0,
            final(self).message == message,
            final(self).completed_at is None,
            final(self).original_file_path == if old(self).original_file_path is Some {
                old(self).original_file_path
            } else {
                old(self).file_path
            },
            final(self).file_path == old(self).file_path,
            final(self).id == old(self).id,
            final(self).url == old(self).url,
            final(self).download_type == old(self).download_type,
            final(self).created_at == old(self).created_at,
            final(self).file_size == old(self).file_size,
            final(self).tags == old(self).tags,
            final(self).is_favorite == old(self).is_favorite,
            final(self).notes == old(self).notes,
            final(self).wf(),
    {
        self.status = DownloadStatus::Converting;
        self.progress = 0;
        self.message = message;
        self.completed_at = None;
        if self.original_file_path.is_none() {
            self.original_file_path = self.file_path.clone();
        }
    }

    /// Records a successful conversion: the job completes again under the
    /// new artifact path and size, keeping the original path.
    pub fn finish_conversion_success(&mut self, new_path: String, new_size: Option<u64>, message: String)
        ensures
            final(self).status is Completed,
            final(self).progress == 100,
            final(self).message == message,
            final(self).completed_at is Some,
            final(self).file_path == Some(new_path),
            final(self).file_size == new_size,
            final(self).original_file_path == old(self).original_file_path,
            final(self).id == old(self).id,
            final(self).url == old(self).url,
            final(self).wf(),
    {
        self.status = DownloadStatus::Completed;
        self.progress = 100;
        self.message = message;
        self.completed_at = Some(crate::sys::now_millis());
        self.file_path = Some(new_path);
        self.file_size = new_size;
    }

    /// Records a failed conversion: the job fails with the engine's
    /// diagnostic, and the artifact fields stay untouched.
    pub fn finish_conversion_failure(&mut self, message: String)
        ensures
            final(self).status is Failed,
            final(self).progress == 0,
            final(self).message == message,
            final(self).completed_at is None,
            final(self).file_path == old(self).file_path,
            final(self).original_file_path == old(self).original_file_path,
            final(self).file_size == old(self).file_size,
            final(self).id == old(self).id,
            final(self).url == old(self).url,
            final(self).wf(),
    {
        self.status = DownloadStatus::Failed;
        self.progress = 0;
        self.message = message;
        self.completed_at = None;
    }
}

/// The last stretch of the engine's diagnostics: at most the final five
/// hundred characters of the captured error output.
pub open spec fn spec_stderr_tail(s: Seq<char>) -> Seq<char> {
    if s.len() <= 500 {
        s
    } else {
        s.subrange(s.len() - 500, s.len() as int)
    }
}

/// The message a failed conversion carries: the engine's exit code (-1
/// when the engine died without one) and the tail of its captured error
/// output.
pub open spec fn spec_conversion_failure_message(exit_code: Option<i32>, stderr: Seq<char>) -> Seq<
    char,
> {
    "Conversion failed (exit code "@ + spec_i64_chars(
        match exit_code {
            Option::Some(c) => c as int,
            Option::None => -1,
        },
    ) + "): "@ + spec_stderr_tail(stderr)
}

/// Builds the diagnostic of a failed conversion run from the engine's
/// exit code and captured error output.
pub fn conversion_failure_message(exit_code: Option<i32>, stderr: &str) -> (r: String)
    ensures
        r@ == spec_conversion_failure_message(exit_code, stderr@),
{
    let mut out = String::from_str("Conversion failed (exit code ");
    let code: i64 = match exit_code {
        Some(c) => c as i64,
        None => -1,
    };
    let cs = i64_to_string(code);
    out.append(cs.as_str());
    out.append("): ");
    let len = stderr.unicode_len();
    if len <= 500 {
        out.append(stderr);
    } else {
        let tail = stderr.substring_char(len - 500, len);
        out.append(tail);
    }
    proof {
        assert(out@ =~= spec_conversion_failure_message(exit_code, stderr@));
    }
    out
}

impl DownloadResponse {
    /// Records a failed conversion straight from what the engine left
    /// behind: the job fails with the exit code and the stderr tail in
    /// its message, and the artifact fields stay untouched.
    pub fn record_conversion_engine_failure(&mut self, exit_code: Option<i32>, stderr: &str)
        ensures
            final(self).status is Failed,
            final(self).progress == 0,
            final(self).message@ == spec_conversion_failure_message(exit_code, stderr@),
            final(self).completed_at is None,
            final(self).file_path == old(self).file_path,
            final(self).original_file_path == old(self).original_file_path,
            final(self).file_size == old(self).file_size,
            final(self).id == old(self).id,
            final(self).url == old(self).url,
            final(self).wf(),
    {
        let message = conversion_failure_message(exit_code, stderr);
        self.finish_conversion_failure(message);
    }
}

/// Whether the input file is deleted after a successful conversion: only
/// when the caller did not ask to keep it and the output is a different
/// file.
pub fn should_delete_original(keep_original: bool, input_path: &str, output_path: &str) -> (r:
    bool)
    ensures
        r == (!keep_original && input_path@ != output_path@),
{
    !keep_original && !crate::text::str_eq(input_path, output_path)
}

/// Percentage of a conversion run: elapsed time over total duration, in
/// microseconds, capped at 100.
pub fn conversion_percent(out_time_us: u64, duration_us: u64) -> (r: u32)
    requires
        duration_us > 0,
    ensures
        r == if out_time_us * 100 / (duration_us as int) < 100 {
            out_time_us * 100 / (duration_us as int)
        } else {
            100int
        },
        r <= 100,
{
    let scaled: u128 = (out_time_us as u128) * 100;
    let pct: u128 = scaled / (duration_us as u128);
    if pct < 100 {
        pct as u32
    } else {
        100
    }
}

/// Everything decided before the conversion engine is spawned.
pub struct ConversionPlan {
    pub format: ConversionFormat,
    pub input_path: String,
    pub output_path: String,
    pub args: Vec<String>,
    pub delete_input_after: bool,
}

/// Plans a whole conversion: checks the job and the requested format,
/// resolves the input path against the download directory, derives the
/// output path, builds the engine arguments and decides the cleanup.
pub fn plan_conversion(
    job: &DownloadResponse,
    format: &str,
    download_dir: &str,
    keep_original: bool,
) -> (r: Result<ConversionPlan, ConversionRefusal>)
    ensures
        r is Ok <==> job.status is Completed && job.file_path is Some && spec_format_from(
            spec_lower(format@),
        ) is Some,
        r matches Ok(p) ==> Some(p.format) == spec_format_from(spec_lower(format@))
            && p.input_path@ == crate::files::spec_join_path(download_dir@, job.file_path->0@)
            && p.output_path@ == spec_output_path(p.input_path@, spec_format_ext(p.format))
            && p.args.deep_view() == spec_ffmpeg_args(p.input_path@, p.output_path@, p.format)
            && p.delete_input_after == (!keep_original && p.input_path@ != p.output_path@),
        r matches Err(e) ==> Err::<ConversionPlan, _>(e) == (match check_conversion_spec(
            *job,
            format@,
        ) {
            Option::Some(refusal) => Err::<ConversionPlan, ConversionRefusal>(refusal),
            Option::None => Err::<ConversionPlan, ConversionRefusal>(e),
        }),
{
    let (fmt, rel_path) = match check_conversion_request(job, format) {
        Ok(p) => p,
        Err(e) => {
            return Err(e);
        },
    };
    let input_path = crate::files::resolve_artifact_path(download_dir, rel_path.as_str());
    let output_path = conversion_output_path(input_path.as_str(), fmt);
    let args = ffmpeg_args(input_path.as_str(), output_path.as_str(), fmt);
    let delete_input_after = should_delete_original(
        keep_original,
        input_path.as_str(),
        output_path.as_str(),
    );
    Ok(ConversionPlan { format: fmt, input_path, output_path, args, delete_input_after })
}

/// The refusal a conversion request earns, when it earns one.
pub open spec fn check_conversion_spec(job: DownloadResponse, format: Seq<char>) -> Option<
    ConversionRefusal,
> {
    if !(job.status is Completed) {
        Some(ConversionRefusal::NotCompleted)
    } else if job.file_path is None {
        Some(ConversionRefusal::NoFilePath)
    } else if spec_format_from(spec_lower(format)) is None {
        Some(ConversionRefusal::UnsupportedFormat)
    } else {
        None
    }
}

} // verus!
