//! Acquisition engine invocations: the argument lists the engine is
//! spawned with, and the artifact path read back from its output.

use vstd::prelude::*;
use vstd::string::StringExecFns;

use crate::files::{spec_parent_of, spec_stem_of, spec_file_name, last_index_of};
use crate::text::{spec_contains, spec_is_space, contains_str, is_space};

verus! {

/// The `-o` template that pins a custom file name while keeping the
/// engine's own extension choice.
pub open spec fn spec_output_template(name: Seq<char>) -> Seq<char> {
    name + ".%(ext)s"@
}

fn output_template(name: &str) -> (r: String)
    ensures
        r@ == spec_output_template(name@),
{
    let mut t = name.to_owned();
    t.append(".%(ext)s");
    t
}

/// The argument list a video acquisition is spawned with: optional target
/// directory, optional output template, the URL, the keep-files flag,
/// optional browser cookies, and the format selection, where `mp4` picks
/// best video and audio merged into an mp4 container.
pub open spec fn spec_video_command_args(
    url: Seq<char>,
    format: Seq<char>,
    keep_files: bool,
    download_path: Option<Seq<char>>,
    custom_filename: Option<Seq<char>>,
    cookies_browser: Option<Seq<char>>,
) -> Seq<Seq<char>> {
    let dir_part: Seq<Seq<char>> = match download_path {
        Option::Some(p) => seq!["-P"@, p],
        Option::None => seq![],
    };
    let name_part: Seq<Seq<char>> = match custom_filename {
        Option::Some(n) => seq!["-o"@, spec_output_template(n)],
        Option::None => seq![],
    };
    let keep_part: Seq<Seq<char>> = if keep_files {
        seq!["-k"@]
    } else {
        seq![]
    };
    let cookie_part: Seq<Seq<char>> = match cookies_browser {
        Option::Some(b) => seq!["--cookies-from-browser"@, b],
        Option::None => seq![],
    };
    let format_part: Seq<Seq<char>> = if format.len() == 0 {
        seq![]
    } else if format == "mp4"@ {
        seq!["-f"@, "bv*+ba/b"@, "--merge-output-format"@, "mp4"@]
    } else if format == "best"@ {
        seq![]
    } else {
        seq!["-f"@, format]
    };
    dir_part + name_part + seq![url] + keep_part + cookie_part + format_part
}

/// Builds the video acquisition argument list.
pub fn build_yt_dlp_command_video(
    url: &str,
    format: &str,
    keep_files: bool,
    download_path: Option<&str>,
    custom_filename: Option<&str>,
    cookies_browser: Option<&str>,
) -> (r: Vec<String>)
    ensures
        r.deep_view() == spec_video_command_args(
            url@,
            format@,
            keep_files,
            match download_path {
                Option::Some(p) => Some(p@),
                Option::None => None,
            },
            match custom_filename {
                Option::Some(n) => Some(n@),
                Option::None => None,
            },
            match cookies_browser {
                Option::Some(b) => Some(b@),
                Option::None => None,
            },
        ),
{
    let mut v: Vec<String> = Vec::new();
    if let Some(p) = download_path {
        push_arg(&mut v, "-P");
        push_arg(&mut v, p);
    }
    if let Some(n) = custom_filename {
        push_arg(&mut v, "-o");
        let t = output_template(n);
        push_arg(&mut v, t.as_str());
    }
    push_arg(&mut v, url);
    if keep_files {
        push_arg(&mut v, "-k");
    }
    if let Some(b) = cookies_browser {
        push_arg(&mut v, "--cookies-from-browser");
        push_arg(&mut v, b);
    }
    if format.unicode_len() > 0 {
        if crate::text::str_eq(format, "mp4") {
            push_arg(&mut v, "-f");
            push_arg(&mut v, "bv*+ba/b");
            push_arg(&mut v, "--merge-output-format");
            push_arg(&mut v, "mp4");
        } else if !crate::text::str_eq(format, "best") {
            push_arg(&mut v, "-f");
            push_arg(&mut v, format);
        }
    }
    proof {
        assert(v.deep_view() =~= spec_video_command_args(
            url@,
            format@,
            keep_files,
            match download_path {
                Option::Some(p) => Some(p@),
                Option::None => None,
            },
            match custom_filename {
                Option::Some(n) => Some(n@),
                Option::None => None,
            },
            match cookies_browser {
                Option::Some(b) => Some(b@),
                Option::None => None,
            },
        ));
    }
    v
}

/// The argument list an audio acquisition is spawned with: optional
/// directory and output template, best-audio selection with extraction
/// into the requested audio format, the URL, then optional cookies.
pub open spec fn spec_audio_command_args(
    url: Seq<char>,
    audio_format: Seq<char>,
    download_path: Option<Seq<char>>,
    custom_filename: Option<Seq<char>>,
    cookies_browser: Option<Seq<char>>,
) -> Seq<Seq<char>> {
    let dir_part: Seq<Seq<char>> = match download_path {
        Option::Some(p) => seq!["-P"@, p],
        Option::None => seq![],
    };
    let name_part: Seq<Seq<char>> = match custom_filename {
        Option::Some(n) => seq!["-o"@, spec_output_template(n)],
        Option::None => seq![],
    };
    let cookie_part: Seq<Seq<char>> = match cookies_browser {
        Option::Some(b) => seq!["--cookies-from-browser"@, b],
        Option::None => seq![],
    };
    dir_part + name_part + seq![
        "-f"@, "bestaudio/best"@, "--extract-audio"@, "--audio-format"@, audio_format, url,
    ] + cookie_part
}

/// Builds the audio acquisition argument list.
pub fn build_yt_dlp_command_audio(
    url: &str,
    audio_format: &str,
    download_path: Option<&str>,
    custom_filename: Option<&str>,
    cookies_browser: Option<&str>,
) -> (r: Vec<String>)
    ensures
        r.deep_view() == spec_audio_command_args(
            url@,
            audio_format@,
            match download_path {
                Option::Some(p) => Some(p@),
                Option::None => None,
            },
            match custom_filename {
                Option::Some(n) => Some(n@),
                Option::None => None,
            },
            match cookies_browser {
                Option::Some(b) => Some(b@),
                Option::None => None,
            },
        ),
{
    let mut v: Vec<String> = Vec::new();
    if let Some(p) = download_path {
        push_arg(&mut v, "-P");
        push_arg(&mut v, p);
    }
    if let Some(n) = custom_filename {
        push_arg(&mut v, "-o");
        let t = output_template(n);
        push_arg(&mut v, t.as_str());
    }
    push_arg(&mut v, "-f");
    push_arg(&mut v, "bestaudio/best");
    push_arg(&mut v, "--extract-audio");
    push_arg(&mut v, "--audio-format");
    push_arg(&mut v, audio_format);
    push_arg(&mut v, url);
    if let Some(b) = cookies_browser {
        push_arg(&mut v, "--cookies-from-browser");
        push_arg(&mut v, b);
    }
    proof {
        assert(v.deep_view() =~= spec_audio_command_args(
            url@,
            audio_format@,
            match download_path {
                Option::Some(p) => Some(p@),
                Option::None => None,
            },
            match custom_filename {
                Option::Some(n) => Some(n@),
                Option::None => None,
            },
            match cookies_browser {
                Option::Some(b) => Some(b@),
                Option::None => None,
            },
        ));
    }
    v
}

fn push_arg(v: &mut Vec<String>, s: &str)
    ensures
        final(v).deep_view() == old(v).deep_view().push(s@),
{
    v.push(s.to_owned());
    proof {
        assert(v.deep_view() =~= old(v).deep_view().push(s@));
    }
}

/// Trimmed text of a line, as `str::trim` would give it.
pub open spec fn spec_trim(s: Seq<char>) -> Seq<char>
    decreases s.len(),
{
    if s.len() > 0 && spec_is_space(s[0]) {
        spec_trim(s.subrange(1, s.len() as int))
    } else if s.len() > 0 && spec_is_space(s[s.len() - 1]) {
        spec_trim(s.subrange(0, s.len() - 1))
    } else {
        s
    }
}

/// Strips leading and trailing white space.
pub fn trim(s: &str) -> (r: &str)
    ensures
        r@ == spec_trim(s@),
    decreases s@.len(),
{
    let len = s.unicode_len();
    if len > 0 && is_space(s.get_char(0)) {
        let rest = s.substring_char(1, len);
        let r = trim(rest);
        proof {
            assert(rest@ == s@.subrange(1, s@.len() as int));
        }
        r
    } else if len > 0 && is_space(s.get_char(len - 1)) {
        let rest = s.substring_char(0, len - 1);
        let r = trim(rest);
        proof {
            assert(rest@ == s@.subrange(0, s@.len() - 1));
        }
        r
    } else {
        s
    }
}

/// The artifact path a progress line announces, when it announces one:
/// the trimmed remainder of the line after the destination marker's
/// width.
pub open spec fn spec_destination_of(line: Seq<char>, marker: Seq<char>) -> Option<Seq<char>> {
    if spec_contains(line, marker) {
        Some(spec_trim(line.subrange(marker.len() as int, line.len() as int)))
    } else {
        None
    }
}

/// Reads the artifact path out of an engine output line: a line holding
/// `[download] Destination: ` (or, for extracted audio,
/// `[ExtractAudio] Destination: `) names the file being written. The text
/// after the marker's width is taken and trimmed.
pub fn destination_from_line(line: &str) -> (r: Option<String>)
    ensures
        r matches Some(p) ==> spec_destination_of(line@, "[download] Destination: "@) == Some(p@)
            || (spec_destination_of(line@, "[download] Destination: "@) is None
            && spec_destination_of(line@, "[ExtractAudio] Destination: "@) == Some(p@)),
        r is None ==> spec_destination_of(line@, "[download] Destination: "@) is None
            && spec_destination_of(line@, "[ExtractAudio] Destination: "@) is None,
{
    match destination_with_marker(line, "[download] Destination: ") {
        Some(p) => Some(p),
        None => destination_with_marker(line, "[ExtractAudio] Destination: "),
    }
}

fn destination_with_marker(line: &str, marker: &str) -> (r: Option<String>)
    ensures
        match r {
            Some(p) => spec_destination_of(line@, marker@) == Some(p@),
            None => spec_destination_of(line@, marker@) is None,
        },
{
    if contains_str(line, marker) {
        let len = line.unicode_len();
        let mlen = marker.unicode_len();
        proof {
            let k = choose|k: int| crate::text::spec_match_at(line@, marker@, k);
            assert(k + marker@.len() <= line@.len());
        }
        let rest = line.substring_char(mlen, len);
        let trimmed = trim(rest);
        Some(trimmed.to_owned())
    } else {
        None
    }
}

/// The video invocation the orchestrator runs: the plain video argument
/// list, with `--no-playlist` put right after the target directory when
/// the request does not want the whole playlist.
pub open spec fn spec_video_download_args(
    url: Seq<char>,
    format: Seq<char>,
    keep_files: bool,
    download_path: Option<Seq<char>>,
    custom_filename: Option<Seq<char>>,
    cookies_browser: Option<Seq<char>>,
    download_playlist: bool,
) -> Seq<Seq<char>> {
    let dir_part: Seq<Seq<char>> = match download_path {
        Option::Some(p) => seq!["-P"@, p],
        Option::None => seq![],
    };
    let playlist_part: Seq<Seq<char>> = if download_playlist {
        seq![]
    } else {
        seq!["--no-playlist"@]
    };
    dir_part + playlist_part + spec_video_command_args(
        url,
        format,
        keep_files,
        None,
        custom_filename,
        cookies_browser,
    )
}

/// Builds the video acquisition argument list for one job, honouring the
/// request's playlist choice.
pub fn video_download_args(
    url: &str,
    format: &str,
    keep_files: bool,
    download_path: Option<&str>,
    custom_filename: Option<&str>,
    cookies_browser: Option<&str>,
    download_playlist: bool,
) -> (r: Vec<String>)
    ensures
        r.deep_view() == spec_video_download_args(
            url@,
            format@,
            keep_files,
            match download_path {
                Option::Some(p) => Some(p@),
                Option::None => None,
            },
            match custom_filename {
                Option::Some(n) => Some(n@),
                Option::None => None,
            },
            match cookies_browser {
                Option::Some(b) => Some(b@),
                Option::None => None,
            },
            download_playlist,
        ),
{
    let mut v: Vec<String> = Vec::new();
    if let Some(p) = download_path {
        push_arg(&mut v, "-P");
        push_arg(&mut v, p);
    }
    if !download_playlist {
        push_arg(&mut v, "--no-playlist");
    }
    let mut tail = build_yt_dlp_command_video(
        url,
        format,
        keep_files,
        None,
        custom_filename,
        cookies_browser,
    );
    let ghost head = v.deep_view();
    let ghost tail_view = tail.deep_view();
    v.append(&mut tail);
    proof {
        assert(v.deep_view() =~= head + tail_view);
        assert(v.deep_view() =~= spec_video_download_args(
            url@,
            format@,
            keep_files,
            match download_path {
                Option::Some(p) => Some(p@),
                Option::None => None,
            },
            match custom_filename {
                Option::Some(n) => Some(n@),
                Option::None => None,
            },
            match cookies_browser {
                Option::Some(b) => Some(b@),
                Option::None => None,
            },
            download_playlist,
        ));
    }
    v
}

/// The audio invocation the orchestrator runs: the plain audio argument
/// list, with `--no-playlist` put right after the target directory when
/// the request does not want the whole playlist.
pub open spec fn spec_audio_download_args(
    url: Seq<char>,
    audio_format: Seq<char>,
    download_path: Option<Seq<char>>,
    custom_filename: Option<Seq<char>>,
    cookies_browser: Option<Seq<char>>,
    download_playlist: bool,
) -> Seq<Seq<char>> {
    let dir_part: Seq<Seq<char>> = match download_path {
        Option::Some(p) => seq!["-P"@, p],
        Option::None => seq![],
    };
    let playlist_part: Seq<Seq<char>> = if download_playlist {
        seq![]
    } else {
        seq!["--no-playlist"@]
    };
    dir_part + playlist_part + spec_audio_command_args(
        url,
        audio_format,
        None,
        custom_filename,
        cookies_browser,
    )
}

/// Builds the audio acquisition argument list for one job, honouring the
/// request's playlist choice.
pub fn audio_download_args(
    url: &str,
    audio_format: &str,
    download_path: Option<&str>,
    custom_filename: Option<&str>,
    cookies_browser: Option<&str>,
    download_playlist: bool,
) -> (r: Vec<String>)
    ensures
        r.deep_view() == spec_audio_download_args(
            url@,
            audio_format@,
            match download_path {
                Option::Some(p) => Some(p@),
                Option::None => None,
            },
            match custom_filename {
                Option::Some(n) => Some(n@),
                Option::None => None,
            },
            match cookies_browser {
                Option::Some(b) => Some(b@),
                Option::None => None,
            },
            download_playlist,
        ),
{
    let mut v: Vec<String> = Vec::new();
    if let Some(p) = download_path {
        push_arg(&mut v, "-P");
        push_arg(&mut v, p);
    }
    if !download_playlist {
        push_arg(&mut v, "--no-playlist");
    }
    let mut tail = build_yt_dlp_command_audio(
        url,
        audio_format,
        None,
        custom_filename,
        cookies_browser,
    );
    let ghost head = v.deep_view();
    let ghost tail_view = tail.deep_view();
    v.append(&mut tail);
    proof {
        assert(v.deep_view() =~= head + tail_view);
        assert(v.deep_view() =~= spec_audio_download_args(
            url@,
            audio_format@,
            match download_path {
                Option::Some(p) => Some(p@),
                Option::None => None,
            },
            match custom_filename {
                Option::Some(n) => Some(n@),
                Option::None => None,
            },
            match cookies_browser {
                Option::Some(b) => Some(b@),
                Option::None => None,
            },
            download_playlist,
        ));
    }
    v
}

/// Everything decided before the separation engine is spawned for an
/// instrumental extraction.
pub struct InstrumentalPlan {
    /// Arguments of the separation engine: two-stem separation into the
    /// input's own directory.
    pub args: Vec<String>,
    /// The directory the engine writes into, named after the input's stem.
    pub output_dir: String,
    /// Where the accompaniment track lands.
    pub raw_instrumental: String,
    /// Where the vocal track lands; deleted after a successful move.
    pub vocals: String,
    /// The name the accompaniment is moved to, next to the input.
    pub final_path: String,
}

/// The separation engine's argument list.
pub open spec fn spec_instrumental_args(parent: Seq<char>, input: Seq<char>) -> Seq<Seq<char>> {
    seq!["separate"@, "-p"@, "spleeter:2stems"@, "-o"@, parent, input]
}

/// The directory the separation engine writes into: the input's parent
/// plus the input's stem.
pub open spec fn spec_instrumental_dir(input: Seq<char>) -> Seq<char> {
    spec_parent_of(input) + spec_stem_of(spec_file_name(input))
}

/// Plans an instrumental extraction: the engine separates the input into
/// two stems under a directory named after the input's stem; the
/// accompaniment is then moved next to the input under an
/// `_instrumental.wav` name and the vocals are dropped.
pub fn plan_instrumental_extraction(input_path: &str) -> (r: InstrumentalPlan)
    ensures
        r.args.deep_view() == spec_instrumental_args(spec_parent_of(input_path@), input_path@),
        r.output_dir@ == spec_instrumental_dir(input_path@),
        r.raw_instrumental@ == spec_instrumental_dir(input_path@) + "/accompaniment.wav"@,
        r.vocals@ == spec_instrumental_dir(input_path@) + "/vocals.wav"@,
        r.final_path@ == spec_parent_of(input_path@) + spec_stem_of(spec_file_name(input_path@))
            + "_instrumental.wav"@,
{
    let len = input_path.unicode_len();
    let name_start: usize = match last_index_of(input_path, '/') {
        Some(i) => i + 1,
        None => 0,
    };
    let parent = input_path.substring_char(0, name_start);
    let name = input_path.substring_char(name_start, len);
    proof {
        assert(parent@ =~= spec_parent_of(input_path@));
        assert(name@ =~= spec_file_name(input_path@));
    }
    let nlen = name.unicode_len();
    let stem_end: usize = match last_index_of(name, '.') {
        Some(i) if i > 0 => i,
        _ => nlen,
    };
    let stem = name.substring_char(0, stem_end);
    proof {
        assert(stem@ =~= spec_stem_of(name@));
    }
    let mut args: Vec<String> = Vec::new();
    push_arg(&mut args, "separate");
    push_arg(&mut args, "-p");
    push_arg(&mut args, "spleeter:2stems");
    push_arg(&mut args, "-o");
    push_arg(&mut args, parent);
    push_arg(&mut args, input_path);
    proof {
        assert(args.deep_view() =~= spec_instrumental_args(
            spec_parent_of(input_path@),
            input_path@,
        ));
    }
    let mut output_dir = parent.to_owned();
    output_dir.append(stem);
    let mut raw_instrumental = output_dir.clone();
    raw_instrumental.append("/accompaniment.wav");
    let mut vocals = output_dir.clone();
    vocals.append("/vocals.wav");
    let mut final_path = parent.to_owned();
    final_path.append(stem);
    final_path.append("_instrumental.wav");
    InstrumentalPlan { args, output_dir, raw_instrumental, vocals, final_path }
}

} // verus!
