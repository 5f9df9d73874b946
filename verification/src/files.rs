//! Byte-range file serving logic: `Range` header parsing, content types,
//! path resolution and the recovery probe list for missing artifacts.

use vstd::prelude::*;
use vstd::string::StringExecFns;

use crate::model::{DownloadResponse, ErrorResponse};
use crate::text::{
    spec_has_prefix, spec_match_at, spec_parse_u64, spec_lower, spec_u64_chars, has_prefix,
    find_str, parse_u64, str_eq_ignore_ascii_case, lemma_lower_id, u64_to_string,
};

verus! {

/// Position `i` holds the only `-` of `rest`.
pub open spec fn is_single_dash_at(rest: Seq<char>, i: int) -> bool {
    &&& 0 <= i < rest.len()
    &&& rest[i] == '-'
    &&& forall|j: int| 0 <= j < rest.len() && j != i ==> rest[j] != '-'
}

/// Clamps a candidate range against the file size: unsatisfiable ranges
/// (start past end, or end past the last byte) yield nothing.
pub open spec fn spec_bounded_range(start: int, end: int, file_size: int) -> Option<(u64, u64)> {
    if start > end || end >= file_size {
        None
    } else {
        Some((start as u64, end as u64))
    }
}

/// Interprets the two sides of the `-`: an empty left side asks for the
/// last N bytes, an empty right side for everything from the start byte on.
pub open spec fn spec_range_of_parts(left: Seq<char>, right: Seq<char>, file_size: u64) -> Option<
    (u64, u64),
>
    recommends
        file_size > 0,
{
    if left.len() == 0 {
        match spec_parse_u64(right) {
            Option::None => None,
            Option::Some(suffix) => if suffix > file_size {
                Some((0u64, (file_size - 1) as u64))
            } else {
                spec_bounded_range(file_size - suffix, file_size - 1, file_size as int)
            },
        }
    } else {
        match spec_parse_u64(left) {
            Option::None => None,
            Option::Some(start) => if right.len() == 0 {
                spec_bounded_range(start as int, file_size - 1, file_size as int)
            } else {
                match spec_parse_u64(right) {
                    Option::None => None,
                    Option::Some(end) => spec_bounded_range(
                        start as int,
                        end as int,
                        file_size as int,
                    ),
                }
            },
        }
    }
}

/// What a `Range` header is worth against a file of `file_size` bytes:
/// `bytes=` followed by exactly one `-` with a start, a suffix length, or
/// both; anything else, or an unsatisfiable span, is no range at all.
pub open spec fn spec_parse_range(s: Seq<char>, file_size: u64) -> Option<(u64, u64)>
    recommends
        file_size > 0,
{
    if !spec_has_prefix(s, "bytes="@) {
        None
    } else {
        let rest = s.subrange("bytes="@.len() as int, s.len() as int);
        if exists|i: int| is_single_dash_at(rest, i) {
            let i = choose|i: int| is_single_dash_at(rest, i);
            spec_range_of_parts(
                rest.subrange(0, i),
                rest.subrange(i + 1, rest.len() as int),
                file_size,
            )
        } else {
            None
        }
    }
}

/// Parses a single `Range: bytes=start-end` header against a file size,
/// supporting `-N` (last N bytes) and `N-` (from N to the end). A malformed
/// or unsatisfiable header yields `None`, which callers answer with a full
/// 200 response rather than a 416.
#[verifier::loop_isolation(false)]
pub fn parse_range(range_header: &str, file_size: u64) -> (r: Option<(u64, u64)>)
    requires
        file_size > 0,
    ensures
        r == spec_parse_range(range_header@, file_size),
{
    if !has_prefix(range_header, "bytes=") {
        return None;
    }
    let len = range_header.unicode_len();
    proof {
        reveal_strlit("bytes=");
    }
    let rest = range_header.substring_char(6, len);
    let ghost rv = range_header@.subrange(
        "bytes="@.len() as int,
        range_header@.len() as int,
    );
    proof {
        assert(rest@ =~= rv);
    }
    let rlen = rest.unicode_len();
    // One pass to find the first dash and reject a second one.
    let mut i: usize = 0;
    let mut dash: Option<usize> = None;
    while i < rlen
        invariant
            i <= rlen,
            rlen == rest@.len(),
            match dash {
                Option::Some(f) => f < i && rest@[f as int] == '-' && forall|j: int|
                    0 <= j < i && j != f ==> rest@[j] != '-',
                Option::None => forall|j: int| 0 <= j < i ==> rest@[j] != '-',
            },
        decreases rlen - i,
    {
        if rest.get_char(i) == '-' {
            match dash {
                Option::None => {
                    dash = Some(i);
                },
                Option::Some(f) => {
                    proof {
                        assert forall|i0: int| !is_single_dash_at(rest@, i0) by {
                            if is_single_dash_at(rest@, i0) {
                                if i0 == f {
                                    assert(rest@[i as int] == '-');
                                } else {
                                    assert(rest@[f as int] == '-');
                                }
                            }
                        }
                        assert(spec_parse_range(range_header@, file_size) is None);
                    }
                    return None;
                },
            }
        }
        i += 1;
    }
    let f = match dash {
        Option::Some(f) => f,
        Option::None => {
            proof {
                assert forall|i0: int| !is_single_dash_at(rest@, i0) by {}
            }
            return None;
        },
    };
    proof {
        assert(is_single_dash_at(rest@, f as int));
        let c = choose|i0: int| is_single_dash_at(rest@, i0);
        assert(c == f) by {
            if c != f {
                assert(rest@[c] == '-');
            }
        }
    }
    let left = rest.substring_char(0, f);
    let right = rest.substring_char(f + 1, rlen);
    if left.unicode_len() == 0 {
        match parse_u64(right) {
            Option::None => None,
            Option::Some(suffix) => {
                if suffix > file_size {
                    Some((0, file_size - 1))
                } else {
                    let start = file_size - suffix;
                    let end = file_size - 1;
                    if start > end {
                        None
                    } else {
                        Some((start, end))
                    }
                }
            },
        }
    } else {
        match parse_u64(left) {
            Option::None => None,
            Option::Some(start) => {
                if right.unicode_len() == 0 {
                    let end = file_size - 1;
                    if start > end {
                        None
                    } else {
                        Some((start, end))
                    }
                } else {
                    match parse_u64(right) {
                        Option::None => None,
                        Option::Some(end) => {
                            if start > end || end >= file_size {
                                None
                            } else {
                                Some((start, end))
                            }
                        },
                    }
                }
            },
        }
    }
}

/// Position `i` holds the last `c` of `s`.
pub open spec fn is_last_index_of(s: Seq<char>, c: char, i: int) -> bool {
    &&& 0 <= i < s.len()
    &&& s[i] == c
    &&& forall|j: int| i < j < s.len() ==> s[j] != c
}

/// Index of the last `c` in `s`, or -1 when there is none.
pub open spec fn spec_last_index_of(s: Seq<char>, c: char) -> int {
    if exists|i: int| is_last_index_of(s, c, i) {
        choose|i: int| is_last_index_of(s, c, i)
    } else {
        -1
    }
}

/// Scans for the last occurrence of a character.
#[verifier::loop_isolation(false)]
pub fn last_index_of(s: &str, c: char) -> (r: Option<usize>)
    ensures
        match r {
            Some(i) => spec_last_index_of(s@, c) == i as int,
            None => spec_last_index_of(s@, c) == -1,
        },
{
    let len = s.unicode_len();
    let mut i: usize = 0;
    let mut found: Option<usize> = None;
    while i < len
        invariant
            i <= len,
            match found {
                Option::Some(f) => f < i && s@[f as int] == c && forall|j: int|
                    f < j < i ==> s@[j] != c,
                Option::None => forall|j: int| 0 <= j < i ==> s@[j] != c,
            },
        decreases len - i,
    {
        if s.get_char(i) == c {
            found = Some(i);
        }
        i += 1;
    }
    proof {
        match found {
            Option::Some(f) => {
                assert(is_last_index_of(s@, c, f as int));
                let w = choose|k: int| is_last_index_of(s@, c, k);
                assert(w == f) by {
                    if w != f {
                        assert(s@[w] == c);
                        assert(s@[f as int] == c);
                    }
                }
            },
            Option::None => {
                assert(forall|k: int| !is_last_index_of(s@, c, k));
            },
        }
    }
    found
}

/// The file name of a path: everything after the last `/`.
pub open spec fn spec_file_name(p: Seq<char>) -> Seq<char> {
    p.subrange(spec_last_index_of(p, '/') + 1, p.len() as int)
}

/// The extension of a path, as `std::path::Path` reads it: the part of the
/// file name after its last `.`, unless the only `.` starts the name.
pub open spec fn spec_extension_of(p: Seq<char>) -> Option<Seq<char>> {
    let name = spec_file_name(p);
    let d = spec_last_index_of(name, '.');
    if d <= 0 {
        None
    } else {
        Some(name.subrange(d + 1, name.len() as int))
    }
}

/// The MIME type registered for a (lower-cased) extension.
pub open spec fn spec_mime_of(el: Seq<char>) -> Seq<char> {
    if el == "mp4"@ {
        "video/mp4"@
    } else if el == "webm"@ {
        "video/webm"@
    } else if el == "mkv"@ {
        "video/x-matroska"@
    } else if el == "avi"@ {
        "video/x-msvideo"@
    } else if el == "mov"@ {
        "video/quicktime"@
    } else if el == "mp3"@ {
        "audio/mpeg"@
    } else if el == "wav"@ {
        "audio/wav"@
    } else if el == "m4a"@ {
        "audio/mp4"@
    } else if el == "flac"@ {
        "audio/flac"@
    } else if el == "ogg"@ {
        "audio/ogg"@
    } else if el == "opus"@ {
        "audio/opus"@
    } else {
        "application/octet-stream"@
    }
}

/// The MIME type a path is served under.
pub open spec fn spec_content_type(p: Seq<char>) -> Seq<char> {
    match spec_extension_of(p) {
        Option::None => "application/octet-stream"@,
        Option::Some(e) => spec_mime_of(spec_lower(e)),
    }
}

/// Picks the `Content-Type` for a served file from its path's extension,
/// case-insensitively; unknown extensions are served as raw bytes.
pub fn get_content_type(path: &str) -> (r: &'static str)
    ensures
        r@ == spec_content_type(path@),
{
    let len = path.unicode_len();
    let name_start: usize = match last_index_of(path, '/') {
        Some(i) => i + 1,
        None => 0,
    };
    let name = path.substring_char(name_start, len);
    proof {
        assert(name@ =~= spec_file_name(path@));
    }
    let nlen = name.unicode_len();
    let d: usize = match last_index_of(name, '.') {
        Some(i) => i,
        None => {
            return "application/octet-stream";
        },
    };
    if d == 0 {
        return "application/octet-stream";
    }
    let ext = name.substring_char(d + 1, nlen);
    proof {
        assert(ext@ =~= spec_extension_of(path@)->0);
    }
    if str_eq_ignore_ascii_case(ext, "mp4") {
        proof {
            reveal_strlit("mp4");
            lemma_lower_id("mp4"@);
        }
        "video/mp4"
    } else if str_eq_ignore_ascii_case(ext, "webm") {
        proof {
            reveal_strlit("webm");
            lemma_lower_id("webm"@);
        }
        "video/webm"
    } else if str_eq_ignore_ascii_case(ext, "mkv") {
        proof {
            reveal_strlit("mkv");
            lemma_lower_id("mkv"@);
        }
        "video/x-matroska"
    } else if str_eq_ignore_ascii_case(ext, "avi") {
        proof {
            reveal_strlit("avi");
            lemma_lower_id("avi"@);
        }
        "video/x-msvideo"
    } else if str_eq_ignore_ascii_case(ext, "mov") {
        proof {
            reveal_strlit("mov");
            lemma_lower_id("mov"@);
        }
        "video/quicktime"
    } else if str_eq_ignore_ascii_case(ext, "mp3") {
        proof {
            reveal_strlit("mp3");
            lemma_lower_id("mp3"@);
        }
        "audio/mpeg"
    } else if str_eq_ignore_ascii_case(ext, "wav") {
        proof {
            reveal_strlit("wav");
            lemma_lower_id("wav"@);
        }
        "audio/wav"
    } else if str_eq_ignore_ascii_case(ext, "m4a") {
        proof {
            reveal_strlit("m4a");
            lemma_lower_id("m4a"@);
        }
        "audio/mp4"
    } else if str_eq_ignore_ascii_case(ext, "flac") {
        proof {
            reveal_strlit("flac");
            lemma_lower_id("flac"@);
        }
        "audio/flac"
    } else if str_eq_ignore_ascii_case(ext, "ogg") {
        proof {
            reveal_strlit("ogg");
            lemma_lower_id("ogg"@);
        }
        "audio/ogg"
    } else if str_eq_ignore_ascii_case(ext, "opus") {
        proof {
            reveal_strlit("opus");
            lemma_lower_id("opus"@);
        }
        "audio/opus"
    } else {
        proof {
            reveal_strlit("mp4");
            reveal_strlit("webm");
            reveal_strlit("mkv");
            reveal_strlit("avi");
            reveal_strlit("mov");
            reveal_strlit("mp3");
            reveal_strlit("wav");
            reveal_strlit("m4a");
            reveal_strlit("flac");
            reveal_strlit("ogg");
            reveal_strlit("opus");
            lemma_lower_id("mp4"@);
            lemma_lower_id("webm"@);
            lemma_lower_id("mkv"@);
            lemma_lower_id("avi"@);
            lemma_lower_id("mov"@);
            lemma_lower_id("mp3"@);
            lemma_lower_id("wav"@);
            lemma_lower_id("m4a"@);
            lemma_lower_id("flac"@);
            lemma_lower_id("ogg"@);
            lemma_lower_id("opus"@);
        }
        "application/octet-stream"
    }
}

/// `k` is the first place `p` matches in `s`.
pub open spec fn is_first_match(s: Seq<char>, p: Seq<char>, k: int) -> bool {
    spec_match_at(s, p, k) && forall|j: int| 0 <= j < k ==> !spec_match_at(s, p, j)
}

/// `s` with every occurrence of `p` struck out, scanning left to right.
pub open spec fn spec_remove_all(s: Seq<char>, p: Seq<char>) -> Seq<char>
    decreases s.len(),
{
    if p.len() == 0 {
        s
    } else if exists|k: int| is_first_match(s, p, k) {
        let k = choose|k: int| is_first_match(s, p, k);
        if 0 <= k && k + p.len() <= s.len() {
            s.subrange(0, k) + spec_remove_all(s.subrange(k + p.len(), s.len() as int), p)
        } else {
            s
        }
    } else {
        s
    }
}

/// Strikes every occurrence of `p` out of `s`.
pub fn remove_all(s: &str, p: &str) -> (r: String)
    ensures
        r@ == spec_remove_all(s@, p@),
    decreases s@.len(),
{
    let slen = s.unicode_len();
    let plen = p.unicode_len();
    if plen == 0 {
        return s.to_owned();
    }
    match find_str(s, p) {
        Option::None => {
            proof {
                assert(forall|k: int| !is_first_match(s@, p@, k));
            }
            s.to_owned()
        },
        Option::Some(k) => {
            proof {
                assert(is_first_match(s@, p@, k as int));
                let w = choose|j: int| is_first_match(s@, p@, j);
                assert(w == k) by {
                    if w < k {
                        assert(!spec_match_at(s@, p@, w));
                    } else if w > k {
                        assert(!spec_match_at(s@, p@, k as int));
                    }
                }
            }
            let head = s.substring_char(0, k);
            let tail = s.substring_char(k + plen, slen);
            let rest = remove_all(tail, p);
            let mut out = head.to_owned();
            out.append(rest.as_str());
            out
        },
    }
}

/// The leading directory part of a path, up to and including its last `/`;
/// empty when the path is a bare file name.
pub open spec fn spec_parent_of(p: Seq<char>) -> Seq<char> {
    p.subrange(0, spec_last_index_of(p, '/') + 1)
}

/// The file name without its extension, as `std::path::Path` reads it.
pub open spec fn spec_stem_of(name: Seq<char>) -> Seq<char> {
    let d = spec_last_index_of(name, '.');
    if d <= 0 {
        name
    } else {
        name.subrange(0, d)
    }
}

/// The stem with the acquisition engine's embedded format codes removed.
pub open spec fn spec_clean_stem(stem: Seq<char>) -> Seq<char> {
    spec_remove_all(
        spec_remove_all(
            spec_remove_all(
                spec_remove_all(
                    spec_remove_all(spec_remove_all(stem, ".f251"@), ".f140"@),
                    ".f137"@,
                ),
                ".f248"@,
            ),
            ".f249"@,
        ),
        ".f250"@,
    )
}

/// One probe path: directory, stem, a dot and the candidate extension.
pub open spec fn spec_candidate(parent: Seq<char>, stem: Seq<char>, ext: Seq<char>) -> Seq<char> {
    parent + stem + "."@ + ext
}

/// The ordered probe list for a missing artifact: first the cleaned stem
/// against each known extension, then the untouched stem against each.
pub open spec fn spec_recovery_candidates(p: Seq<char>) -> Seq<Seq<char>> {
    let parent = spec_parent_of(p);
    let stem = spec_stem_of(spec_file_name(p));
    let clean = spec_clean_stem(stem);
    seq![
        spec_candidate(parent, clean, "mp4"@),
        spec_candidate(parent, clean, "webm"@),
        spec_candidate(parent, clean, "mkv"@),
        spec_candidate(parent, clean, "mp3"@),
        spec_candidate(parent, clean, "m4a"@),
        spec_candidate(parent, clean, "wav"@),
        spec_candidate(parent, clean, "flac"@),
        spec_candidate(parent, stem, "mp4"@),
        spec_candidate(parent, stem, "webm"@),
        spec_candidate(parent, stem, "mkv"@),
        spec_candidate(parent, stem, "mp3"@),
        spec_candidate(parent, stem, "m4a"@),
        spec_candidate(parent, stem, "wav"@),
        spec_candidate(parent, stem, "flac"@),
    ]
}

fn build_candidate(parent: &str, stem: &str, ext: &str) -> (r: String)
    ensures
        r@ == spec_candidate(parent@, stem@, ext@),
{
    let mut out = parent.to_owned();
    out.append(stem);
    out.append(".");
    out.append(ext);
    out
}

/// The ordered list of alternative paths to probe when a job's recorded
/// artifact is gone: format codes such as `.f251` are stripped from the
/// stem and common media extensions are tried, then the original stem.
/// The caller probes them in order and serves the first that exists.
pub fn recovery_candidates(path: &str) -> (r: Vec<String>)
    ensures
        r.deep_view() == spec_recovery_candidates(path@),
{
    let len = path.unicode_len();
    let name_start: usize = match last_index_of(path, '/') {
        Some(i) => i + 1,
        None => 0,
    };
    let parent = path.substring_char(0, name_start);
    let name = path.substring_char(name_start, len);
    proof {
        assert(parent@ =~= spec_parent_of(path@));
        assert(name@ =~= spec_file_name(path@));
    }
    let nlen = name.unicode_len();
    let stem_end: usize = match last_index_of(name, '.') {
        Some(i) => if i == 0 {
            nlen
        } else {
            i
        },
        None => nlen,
    };
    let stem = name.substring_char(0, stem_end);
    proof {
        assert(stem@ =~= spec_stem_of(name@));
    }
    let c1 = remove_all(stem, ".f251");
    let c2 = remove_all(c1.as_str(), ".f140");
    let c3 = remove_all(c2.as_str(), ".f137");
    let c4 = remove_all(c3.as_str(), ".f248");
    let c5 = remove_all(c4.as_str(), ".f249");
    let clean = remove_all(c5.as_str(), ".f250");
    let mut out: Vec<String> = Vec::new();
    out.push(build_candidate(parent, clean.as_str(), "mp4"));
    out.push(build_candidate(parent, clean.as_str(), "webm"));
    out.push(build_candidate(parent, clean.as_str(), "mkv"));
    out.push(build_candidate(parent, clean.as_str(), "mp3"));
    out.push(build_candidate(parent, clean.as_str(), "m4a"));
    out.push(build_candidate(parent, clean.as_str(), "wav"));
    out.push(build_candidate(parent, clean.as_str(), "flac"));
    out.push(build_candidate(parent, stem, "mp4"));
    out.push(build_candidate(parent, stem, "webm"));
    out.push(build_candidate(parent, stem, "mkv"));
    out.push(build_candidate(parent, stem, "mp3"));
    out.push(build_candidate(parent, stem, "m4a"));
    out.push(build_candidate(parent, stem, "wav"));
    out.push(build_candidate(parent, stem, "flac"));
    proof {
        assert(out.deep_view() =~= spec_recovery_candidates(path@));
    }
    out
}

/// Unix-style path joining: an absolute artifact path stands as it is,
/// a relative one is appended to the download directory.
pub open spec fn spec_join_path(dir: Seq<char>, rel: Seq<char>) -> Seq<char> {
    if rel.len() > 0 && rel[0] == '/' {
        rel
    } else if dir.len() == 0 || dir[dir.len() - 1] == '/' {
        dir + rel
    } else {
        dir + "/"@ + rel
    }
}

/// Resolves a job's recorded artifact path against the download directory.
pub fn resolve_artifact_path(dir: &str, rel: &str) -> (r: String)
    ensures
        r@ == spec_join_path(dir@, rel@),
{
    let rlen = rel.unicode_len();
    if rlen > 0 && rel.get_char(0) == '/' {
        return rel.to_owned();
    }
    let dlen = dir.unicode_len();
    let mut out = dir.to_owned();
    if dlen == 0 || dir.get_char(dlen - 1) == '/' {
        out.append(rel);
    } else {
        out.append("/");
        out.append(rel);
    }
    out
}

/// Checks that a job is ready to be served: it must stand `Completed` with
/// a recorded artifact path. The errors carry the HTTP status to answer.
pub fn check_servable(job: &DownloadResponse) -> (r: Result<String, (u16, ErrorResponse)>)
    ensures
        r is Ok <==> job.status is Completed && job.file_path is Some,
        r matches Ok(p) ==> job.file_path == Some(p),
        !(job.status is Completed) ==> (r matches Err((c, e)) && c == 400 && e.error@
            == "not_ready"@),
        job.status is Completed && job.file_path is None ==> (r matches Err((c, e)) && c == 404
            && e.error@ == "no_file"@),
{
    if !matches!(job.status, crate::model::DownloadStatus::Completed) {
        return Err(
            (
                400,
                ErrorResponse::new(
                    "not_ready",
                    String::from_str("Download is not completed yet"),
                ),
            ),
        );
    }
    match &job.file_path {
        Some(p) => Ok(p.clone()),
        None => Err(
            (404, ErrorResponse::new("no_file", String::from_str("File path not found"))),
        ),
    }
}

/// The `Content-Range` line of a partial response.
pub open spec fn spec_content_range(s: u64, e: u64, size: u64) -> Seq<char> {
    "bytes "@ + spec_u64_chars(s as int) + "-"@ + spec_u64_chars(e as int) + "/"@
        + spec_u64_chars(size as int)
}

/// The span a request is answered with: the parsed range when one is
/// present and satisfiable, and nothing otherwise.
pub open spec fn spec_served_span(file_size: u64, h: Option<Seq<char>>) -> Option<(u64, u64)> {
    match h {
        Option::Some(hh) => if file_size > 0 {
            spec_parse_range(hh, file_size)
        } else {
            None
        },
        Option::None => None,
    }
}

/// How a file of `file_size` bytes is served for a request.
pub struct ServePlan {
    /// 206 for a satisfied range, 200 otherwise.
    pub status: u16,
    /// First byte to send.
    pub offset: u64,
    /// Exact number of bytes to send.
    pub length: u64,
    /// `Content-Range` header of a partial response.
    pub content_range: Option<String>,
}

/// Decides status, offset, length and headers for a download request. A
/// missing, malformed or unsatisfiable `Range` header yields the full file
/// with a 200; a satisfied one yields exactly the requested span and a 206.
pub fn plan_serve(file_size: u64, range_header: Option<&str>) -> (r: ServePlan)
    ensures
        ({
            let span = spec_served_span(
                file_size,
                match range_header {
                    Option::Some(h) => Some(h@),
                    Option::None => None,
                },
            );
            match span {
                Option::Some((s, e)) => r.status == 206 && r.offset == s && r.length == e - s + 1
                    && (r.content_range matches Some(cr) && cr@ == spec_content_range(
                    s,
                    e,
                    file_size,
                )),
                Option::None => r.status == 200 && r.offset == 0 && r.length == file_size
                    && r.content_range is None,
            }
        }),
{
    match range_header {
        Option::Some(h) => {
            if file_size == 0 {
                return ServePlan { status: 200, offset: 0, length: file_size, content_range: None };
            }
            match parse_range(h, file_size) {
                Option::Some((s, e)) => {
                    let mut cr = String::from_str("bytes ");
                    let ss = u64_to_string(s);
                    let es = u64_to_string(e);
                    let sz = u64_to_string(file_size);
                    cr.append(ss.as_str());
                    cr.append("-");
                    cr.append(es.as_str());
                    cr.append("/");
                    cr.append(sz.as_str());
                    ServePlan {
                        status: 206,
                        offset: s,
                        length: e - s + 1,
                        content_range: Some(cr),
                    }
                },
                Option::None => ServePlan {
                    status: 200,
                    offset: 0,
                    length: file_size,
                    content_range: None,
                },
            }
        },
        Option::None => ServePlan { status: 200, offset: 0, length: file_size, content_range: None },
    }
}

} // verus!
