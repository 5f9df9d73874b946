//! Export and import formats: jobs written out as CSV records or as a
//! JSON array, field by field.

use vstd::prelude::*;
use vstd::string::StringExecFns;

use crate::model::{DownloadResponse, JobView, Tag, TagView};
use crate::model::{spec_download_type_string, spec_status_string, download_type_to_string,
    status_to_string};
use crate::text::{
    spec_i64_chars, spec_u64_chars, spec_contains, contains_str, i64_to_string, u64_to_string,
    u128_to_string,
};
use crate::webhook::{spec_json_escape, json_escape};

verus! {

/// Doubling of every quote, as CSV writes quoted content.
pub open spec fn spec_csv_escape(s: Seq<char>) -> Seq<char>
    decreases s.len(),
{
    if s.len() == 0 {
        Seq::empty()
    } else {
        (if s[0] == '"' {
            seq!['"', '"']
        } else {
            seq![s[0]]
        }) + spec_csv_escape(s.subrange(1, s.len() as int))
    }
}

/// Whether a CSV field needs quoting: it holds a comma, a quote or a
/// line break.
pub open spec fn spec_csv_needs_quote(s: Seq<char>) -> bool {
    spec_contains(s, ","@) || spec_contains(s, "\""@) || spec_contains(s, "\n"@)
        || spec_contains(s, "\r"@)
}

/// One CSV field: quoted with doubled quotes when it needs it, bare
/// otherwise.
pub open spec fn spec_csv_field(s: Seq<char>) -> Seq<char> {
    if spec_csv_needs_quote(s) {
        seq!['"'] + spec_csv_escape(s) + seq!['"']
    } else {
        s
    }
}

proof fn lemma_csv_escape_snoc(s: Seq<char>)
    requires
        s.len() > 0,
    ensures
        spec_csv_escape(s) == spec_csv_escape(s.drop_last()) + (if s.last() == '"' {
            seq!['"', '"']
        } else {
            seq![s.last()]
        }),
    decreases s.len(),
{
    if s.len() == 1 {
        assert(s.drop_last() =~= Seq::<char>::empty());
        assert(s.subrange(1, s.len() as int) =~= Seq::<char>::empty());
        assert(spec_csv_escape(s.drop_last()) + (if s.last() == '"' {
            seq!['"', '"']
        } else {
            seq![s.last()]
        }) =~= spec_csv_escape(s));
    } else {
        let t = s.subrange(1, s.len() as int);
        lemma_csv_escape_snoc(t);
        assert(t.drop_last() =~= s.drop_last().subrange(1, s.drop_last().len() as int));
        assert(t.last() == s.last());
        assert(s.drop_last().len() > 0 && s.drop_last()[0] == s[0]);
        assert((if s[0] == '"' {
            seq!['"', '"']
        } else {
            seq![s[0]]
        }) + (spec_csv_escape(t.drop_last()) + (if t.last() == '"' {
            seq!['"', '"']
        } else {
            seq![t.last()]
        })) =~= ((if s.drop_last()[0] == '"' {
            seq!['"', '"']
        } else {
            seq![s.drop_last()[0]]
        }) + spec_csv_escape(s.drop_last().subrange(1, s.drop_last().len() as int))) + (if s.last()
            == '"' {
            seq!['"', '"']
        } else {
            seq![s.last()]
        }));
    }
}

/// Writes one CSV field, quoting it when its content requires that.
#[verifier::loop_isolation(false)]
pub fn csv_field(s: &str) -> (r: String)
    ensures
        r@ == spec_csv_field(s@),
{
    let needs = contains_str(s, ",") || contains_str(s, "\"") || contains_str(s, "\n")
        || contains_str(s, "\r");
    if !needs {
        return s.to_owned();
    }
    let len = s.unicode_len();
    let mut out = String::from_str("\"");
    proof {
        reveal_strlit("\"");
        assert(out@ =~= seq!['"']);
        assert(s@.subrange(0, 0) =~= Seq::<char>::empty());
    }
    let mut i: usize = 0;
    while i < len
        invariant
            i <= len,
            out@ == seq!['"'] + spec_csv_escape(s@.subrange(0, i as int)),
        decreases len - i,
    {
        let c = s.get_char(i);
        if c == '"' {
            out.append("\"\"");
            proof {
                reveal_strlit("\"\"");
                assert("\"\""@ =~= seq!['"', '"']);
            }
        } else {
            let piece = s.substring_char(i, i + 1);
            out.append(piece);
            proof {
                assert(piece@ =~= seq![s@[i as int]]);
            }
        }
        proof {
            let cur = s@.subrange(0, i + 1);
            assert(cur.drop_last() =~= s@.subrange(0, i as int));
            assert(cur.last() == s@[i as int]);
            lemma_csv_escape_snoc(cur);
            assert(out@ =~= seq!['"'] + spec_csv_escape(cur));
        }
        i += 1;
    }
    out.append("\"");
    proof {
        assert(s@.subrange(0, len as int) =~= s@);
        assert(out@ =~= seq!['"'] + spec_csv_escape(s@) + seq!['"']);
    }
    out
}

/// An optional number as CSV writes it: the digits, or nothing.
pub open spec fn spec_csv_opt_u64(v: Option<u64>) -> Seq<char> {
    match v {
        Option::Some(x) => spec_u64_chars(x as int),
        Option::None => Seq::empty(),
    }
}

/// An optional count as CSV writes it.
pub open spec fn spec_csv_opt_i32(v: Option<i32>) -> Seq<char> {
    match v {
        Option::Some(x) => spec_i64_chars(x as int),
        Option::None => Seq::empty(),
    }
}

/// An optional text as CSV writes it: the field, or nothing.
pub open spec fn spec_csv_opt_text(v: Option<Seq<char>>) -> Seq<char> {
    match v {
        Option::Some(s) => spec_csv_field(s),
        Option::None => Seq::empty(),
    }
}

/// The CSV header line of an export.
pub open spec fn spec_csv_header() -> Seq<char> {
    "id,url,type,status,progress,message,created_at,completed_at,file_path,is_playlist,total_items,completed_items,title,thumbnail,duration,author,file_size,retry_count,max_retries,notes\n"@
}

/// One job as a CSV record, fields in header order, ending in a line
/// break.
pub open spec fn spec_csv_record(j: JobView) -> Seq<char> {
    spec_csv_field(j.id) + ","@ + spec_csv_field(j.url) + ","@ + spec_download_type_string(
        j.download_type,
    ) + ","@ + spec_status_string(j.status) + ","@ + spec_u64_chars(j.progress as int) + ","@
        + spec_csv_field(j.message) + ","@ + spec_i64_chars(j.created_at as int) + ","@ + (match j.completed_at {
        Option::Some(t) => spec_i64_chars(t as int),
        Option::None => Seq::empty(),
    }) + ","@ + spec_csv_opt_text(j.file_path) + ","@ + (if j.is_playlist {
        "true"@
    } else {
        "false"@
    }) + ","@ + spec_csv_opt_i32(j.total_items) + ","@ + spec_csv_opt_i32(j.completed_items)
        + ","@ + spec_csv_opt_text(j.title) + ","@ + spec_csv_opt_text(j.thumbnail) + ","@
        + spec_csv_opt_u64(j.duration) + ","@ + spec_csv_opt_text(j.author) + ","@
        + spec_csv_opt_u64(j.file_size) + ","@ + (match j.retry_count {
        Option::Some(x) => spec_u64_chars(x as int),
        Option::None => Seq::empty(),
    }) + ","@ + (match j.max_retries {
        Option::Some(x) => spec_u64_chars(x as int),
        Option::None => Seq::empty(),
    }) + ","@ + spec_csv_opt_text(j.notes) + "\n"@
}

fn push_opt_text(out: &mut String, v: Option<&String>)
    ensures
        final(out)@ == old(out)@ + spec_csv_opt_text(
            match v {
                Option::Some(s) => Some(s@),
                Option::None => None,
            },
        ),
{
    match v {
        Some(s) => {
            let f = csv_field(s.as_str());
            out.append(f.as_str());
        },
        None => {
            proof {
                assert(out@ =~= out@ + Seq::<char>::empty());
            }
        },
    }
}

/// Writes one job as a CSV record.
#[verifier::rlimit(60)]
pub fn csv_record(job: &DownloadResponse) -> (r: String)
    ensures
        r@ == spec_csv_record(job@),
{
    let mut out = csv_field(job.id.as_str());
    out.append(",");
    let f = csv_field(job.url.as_str());
    out.append(f.as_str());
    out.append(",");
    let ty = download_type_to_string(&job.download_type);
    out.append(ty.as_str());
    out.append(",");
    let st = status_to_string(&job.status);
    out.append(st.as_str());
    out.append(",");
    let pr = u64_to_string(job.progress as u64);
    out.append(pr.as_str());
    out.append(",");
    let ms = csv_field(job.message.as_str());
    out.append(ms.as_str());
    out.append(",");
    let ca = i64_to_string(job.created_at);
    out.append(ca.as_str());
    out.append(",");
    if let Some(t) = job.completed_at {
        let cs = i64_to_string(t);
        out.append(cs.as_str());
    }
    out.append(",");
    push_opt_text(&mut out, job.file_path.as_ref());
    out.append(",");
    if job.is_playlist {
        out.append("true");
    } else {
        out.append("false");
    }
    out.append(",");
    if let Some(x) = job.total_items {
        let xs = i64_to_string(x as i64);
        out.append(xs.as_str());
    }
    out.append(",");
    if let Some(x) = job.completed_items {
        let xs = i64_to_string(x as i64);
        out.append(xs.as_str());
    }
    out.append(",");
    push_opt_text(&mut out, job.title.as_ref());
    out.append(",");
    push_opt_text(&mut out, job.thumbnail.as_ref());
    out.append(",");
    if let Some(x) = job.duration {
        let xs = u64_to_string(x);
        out.append(xs.as_str());
    }
    out.append(",");
    push_opt_text(&mut out, job.author.as_ref());
    out.append(",");
    if let Some(x) = job.file_size {
        let xs = u64_to_string(x);
        out.append(xs.as_str());
    }
    out.append(",");
    if let Some(x) = job.retry_count {
        let xs = u64_to_string(x as u64);
        out.append(xs.as_str());
    }
    out.append(",");
    if let Some(x) = job.max_retries {
        let xs = u64_to_string(x as u64);
        out.append(xs.as_str());
    }
    out.append(",");
    push_opt_text(&mut out, job.notes.as_ref());
    out.append("\n");
    proof {
        assert(out@ =~= spec_csv_record(job@));
    }
    out
}

/// A whole CSV export: the header, then one record per job in order.
pub open spec fn spec_csv_records(jobs: Seq<JobView>) -> Seq<char>
    decreases jobs.len(),
{
    if jobs.len() == 0 {
        Seq::empty()
    } else {
        spec_csv_records(jobs.drop_last()) + spec_csv_record(jobs.last())
    }
}

/// Writes every job as CSV, header first.
#[verifier::loop_isolation(false)]
pub fn export_csv(jobs: &Vec<DownloadResponse>) -> (r: String)
    ensures
        r@ == spec_csv_header() + spec_csv_records(jobs.deep_view()),
{
    let mut out = String::from_str(
        "id,url,type,status,progress,message,created_at,completed_at,file_path,is_playlist,total_items,completed_items,title,thumbnail,duration,author,file_size,retry_count,max_retries,notes\n",
    );
    proof {
        assert(jobs.deep_view().subrange(0, 0) =~= Seq::<JobView>::empty());
        assert(out@ =~= spec_csv_header() + spec_csv_records(jobs.deep_view().subrange(0, 0)));
    }
    let n = jobs.len();
    let mut i: usize = 0;
    while i < n
        invariant
            i <= n,
            n == jobs@.len(),
            out@ == spec_csv_header() + spec_csv_records(jobs.deep_view().subrange(0, i as int)),
        decreases n - i,
    {
        let rec = csv_record(&jobs[i]);
        out.append(rec.as_str());
        proof {
            let cur = jobs.deep_view().subrange(0, i + 1);
            assert(cur.drop_last() =~= jobs.deep_view().subrange(0, i as int));
            assert(cur.last() == jobs.deep_view()[i as int]);
            assert(out@ =~= spec_csv_header() + spec_csv_records(cur));
        }
        i += 1;
    }
    proof {
        assert(jobs.deep_view().subrange(0, n as int) =~= jobs.deep_view());
    }
    out
}

/// An optional JSON number: digits or `null`.
pub open spec fn spec_json_opt_num(v: Option<int>) -> Seq<char> {
    match v {
        Option::Some(x) => spec_i64_chars(x),
        Option::None => "null"@,
    }
}

/// One tag as a JSON object.
pub open spec fn spec_tag_json(t: TagView) -> Seq<char> {
    "{\"id\":\""@ + spec_json_escape(t.id) + "\",\"name\":\""@ + spec_json_escape(t.name)
        + "\",\"color\":"@ + crate::orchestrator::spec_json_opt_string(t.color)
        + ",\"category\":"@ + crate::orchestrator::spec_json_opt_string(t.category)
        + ",\"created_at\":"@ + spec_i64_chars(t.created_at as int) + "}"@
}

/// A job's tag list as JSON: `null` when never loaded, else an array.
pub open spec fn spec_tags_json(ts: Option<Seq<TagView>>) -> Seq<char> {
    match ts {
        Option::Some(list) => seq!['['] + spec_tag_list_json(list) + seq![']'],
        Option::None => "null"@,
    }
}

pub open spec fn spec_tag_list_json(list: Seq<TagView>) -> Seq<char>
    decreases list.len(),
{
    if list.len() == 0 {
        Seq::empty()
    } else if list.len() == 1 {
        spec_tag_json(list[0])
    } else {
        spec_tag_list_json(list.drop_last()) + seq![','] + spec_tag_json(list.last())
    }
}

/// One job as a JSON object with every stored field.
pub open spec fn spec_job_json(j: JobView) -> Seq<char> {
    "{\"id\":\""@ + spec_json_escape(j.id) + "\",\"status\":\""@ + spec_status_string(j.status)
        + "\",\"progress\":"@ + spec_u64_chars(j.progress as int) + ",\"message\":\""@
        + spec_json_escape(j.message) + "\",\"url\":\""@ + spec_json_escape(j.url)
        + "\",\"type\":\""@ + spec_download_type_string(j.download_type) + "\",\"created_at\":"@
        + spec_i64_chars(j.created_at as int) + ",\"completed_at\":"@ + spec_json_opt_num(
        match j.completed_at {
            Option::Some(t) => Some(t as int),
            Option::None => None,
        },
    ) + ",\"file_path\":"@ + crate::orchestrator::spec_json_opt_string(j.file_path)
        + ",\"is_playlist\":"@ + (if j.is_playlist {
        "true"@
    } else {
        "false"@
    }) + ",\"total_items\":"@ + spec_json_opt_num(
        match j.total_items {
            Option::Some(x) => Some(x as int),
            Option::None => None,
        },
    ) + ",\"completed_items\":"@ + spec_json_opt_num(
        match j.completed_items {
            Option::Some(x) => Some(x as int),
            Option::None => None,
        },
    ) + ",\"title\":"@ + crate::orchestrator::spec_json_opt_string(j.title) + ",\"thumbnail\":"@
        + crate::orchestrator::spec_json_opt_string(j.thumbnail) + ",\"duration\":"@
        + spec_json_opt_num(
        match j.duration {
            Option::Some(x) => Some(x as int),
            Option::None => None,
        },
    ) + ",\"author\":"@ + crate::orchestrator::spec_json_opt_string(j.author) + ",\"file_size\":"@
        + spec_json_opt_num(
        match j.file_size {
            Option::Some(x) => Some(x as int),
            Option::None => None,
        },
    ) + ",\"retry_count\":"@ + spec_json_opt_num(
        match j.retry_count {
            Option::Some(x) => Some(x as int),
            Option::None => None,
        },
    ) + ",\"max_retries\":"@ + spec_json_opt_num(
        match j.max_retries {
            Option::Some(x) => Some(x as int),
            Option::None => None,
        },
    ) + ",\"notes\":"@ + crate::orchestrator::spec_json_opt_string(j.notes)
        + ",\"original_file_path\":"@ + crate::orchestrator::spec_json_opt_string(
        j.original_file_path,
    ) + ",\"tags\":"@ + spec_tags_json(j.tags) + ",\"is_favorite\":"@ + (if j.is_favorite {
        "true"@
    } else {
        "false"@
    }) + "}"@
}

fn push_json_opt_num_u64(out: &mut String, v: Option<u64>)
    ensures
        final(out)@ == old(out)@ + spec_json_opt_num(
            match v {
                Option::Some(x) => Some(x as int),
                Option::None => None,
            },
        ),
{
    match v {
        Some(x) => {
            let xs = u64_to_string(x);
            out.append(xs.as_str());
        },
        None => {
            out.append("null");
        },
    }
}

fn push_json_opt_num_i64(out: &mut String, v: Option<i64>)
    ensures
        final(out)@ == old(out)@ + spec_json_opt_num(
            match v {
                Option::Some(x) => Some(x as int),
                Option::None => None,
            },
        ),
{
    match v {
        Some(x) => {
            let xs = i64_to_string(x);
            out.append(xs.as_str());
        },
        None => {
            out.append("null");
        },
    }
}

fn push_json_opt_string(out: &mut String, v: Option<&String>)
    ensures
        final(out)@ == old(out)@ + crate::orchestrator::spec_json_opt_string(
            match v {
                Option::Some(s) => Some(s@),
                Option::None => None,
            },
        ),
{
    match v {
        Some(s) => {
            out.append("\"");
            let esc = json_escape(s.as_str());
            out.append(esc.as_str());
            out.append("\"");
            proof {
                reveal_strlit("\"");
                assert(out@ =~= old(out)@ + (seq!['"'] + spec_json_escape(s@) + seq!['"']));
            }
        },
        None => {
            out.append("null");
        },
    }
}

fn tag_json(t: &Tag) -> (r: String)
    ensures
        r@ == spec_tag_json(t@),
{
    let mut out = String::from_str("{\"id\":\"");
    let id = json_escape(t.id.as_str());
    out.append(id.as_str());
    out.append("\",\"name\":\"");
    let nm = json_escape(t.name.as_str());
    out.append(nm.as_str());
    out.append("\",\"color\":");
    push_json_opt_string(&mut out, t.color.as_ref());
    out.append(",\"category\":");
    push_json_opt_string(&mut out, t.category.as_ref());
    out.append(",\"created_at\":");
    let ca = i64_to_string(t.created_at);
    out.append(ca.as_str());
    out.append("}");
    proof {
        assert(out@ =~= spec_tag_json(t@));
    }
    out
}

fn push_tags_json(out: &mut String, ts: Option<&Vec<Tag>>)
    ensures
        final(out)@ == old(out)@ + spec_tags_json(
            match ts {
                Option::Some(v) => Some(v.deep_view()),
                Option::None => None,
            },
        ),
{
    match ts {
        Some(v) => {
            out.append("[");
            proof {
                reveal_strlit("[");
                reveal_strlit("]");
                reveal_strlit(",");
                assert(v.deep_view().subrange(0, 0) =~= Seq::<TagView>::empty());
                assert(out@ =~= old(out)@ + seq!['['] + spec_tag_list_json(
                    v.deep_view().subrange(0, 0),
                ));
            }
            let n = v.len();
            let mut i: usize = 0;
            while i < n
                invariant
                    i <= n,
                    n == v@.len(),
                    out@ == old(out)@ + seq!['['] + spec_tag_list_json(
                        v.deep_view().subrange(0, i as int),
                    ),
                decreases n - i,
            {
                if i > 0 {
                    out.append(",");
                }
                let tj = tag_json(&v[i]);
                out.append(tj.as_str());
                proof {
                    reveal_strlit(",");
                    let cur = v.deep_view().subrange(0, i + 1);
                    assert(cur.drop_last() =~= v.deep_view().subrange(0, i as int));
                    assert(cur.last() == v.deep_view()[i as int]);
                    assert(out@ =~= old(out)@ + seq!['['] + spec_tag_list_json(cur));
                }
                i += 1;
            }
            out.append("]");
            proof {
                assert(v.deep_view().subrange(0, n as int) =~= v.deep_view());
                assert(out@ =~= old(out)@ + spec_tags_json(Some(v.deep_view())));
            }
        },
        None => {
            out.append("null");
        },
    }
}

/// Writes one job as JSON.
#[verifier::rlimit(60)]
pub fn job_json(job: &DownloadResponse) -> (r: String)
    ensures
        r@ == spec_job_json(job@),
{
    let mut out = String::from_str("{\"id\":\"");
    let id = json_escape(job.id.as_str());
    out.append(id.as_str());
    out.append("\",\"status\":\"");
    let st = status_to_string(&job.status);
    out.append(st.as_str());
    out.append("\",\"progress\":");
    let pr = u64_to_string(job.progress as u64);
    out.append(pr.as_str());
    out.append(",\"message\":\"");
    let ms = json_escape(job.message.as_str());
    out.append(ms.as_str());
    out.append("\",\"url\":\"");
    let u = json_escape(job.url.as_str());
    out.append(u.as_str());
    out.append("\",\"type\":\"");
    let ty = download_type_to_string(&job.download_type);
    out.append(ty.as_str());
    out.append("\",\"created_at\":");
    let ca = i64_to_string(job.created_at);
    out.append(ca.as_str());
    out.append(",\"completed_at\":");
    push_json_opt_num_i64(&mut out, job.completed_at);
    out.append(",\"file_path\":");
    push_json_opt_string(&mut out, job.file_path.as_ref());
    out.append(",\"is_playlist\":");
    if job.is_playlist {
        out.append("true");
    } else {
        out.append("false");
    }
    out.append(",\"total_items\":");
    push_json_opt_num_i64(
        &mut out,
        match job.total_items {
            Some(x) => Some(x as i64),
            None => None,
        },
    );
    out.append(",\"completed_items\":");
    push_json_opt_num_i64(
        &mut out,
        match job.completed_items {
            Some(x) => Some(x as i64),
            None => None,
        },
    );
    out.append(",\"title\":");
    push_json_opt_string(&mut out, job.title.as_ref());
    out.append(",\"thumbnail\":");
    push_json_opt_string(&mut out, job.thumbnail.as_ref());
    out.append(",\"duration\":");
    push_json_opt_num_u64(&mut out, job.duration);
    out.append(",\"author\":");
    push_json_opt_string(&mut out, job.author.as_ref());
    out.append(",\"file_size\":");
    push_json_opt_num_u64(&mut out, job.file_size);
    out.append(",\"retry_count\":");
    push_json_opt_num_u64(
        &mut out,
        match job.retry_count {
            Some(x) => Some(x as u64),
            None => None,
        },
    );
    out.append(",\"max_retries\":");
    push_json_opt_num_u64(
        &mut out,
        match job.max_retries {
            Some(x) => Some(x as u64),
            None => None,
        },
    );
    out.append(",\"notes\":");
    push_json_opt_string(&mut out, job.notes.as_ref());
    out.append(",\"original_file_path\":");
    push_json_opt_string(&mut out, job.original_file_path.as_ref());
    out.append(",\"tags\":");
    push_tags_json(&mut out, job.tags.as_ref());
    out.append(",\"is_favorite\":");
    if job.is_favorite {
        out.append("true");
    } else {
        out.append("false");
    }
    out.append("}");
    proof {
        assert(out@ =~= spec_job_json(job@));
    }
    out
}

/// A whole JSON export: an array of job objects in order.
pub open spec fn spec_jobs_json(jobs: Seq<JobView>) -> Seq<char>
    decreases jobs.len(),
{
    if jobs.len() == 0 {
        Seq::empty()
    } else if jobs.len() == 1 {
        spec_job_json(jobs[0])
    } else {
        spec_jobs_json(jobs.drop_last()) + seq![','] + spec_job_json(jobs.last())
    }
}

/// Writes every job as one JSON array.
#[verifier::loop_isolation(false)]
#[verifier::rlimit(60)]
pub fn export_json(jobs: &Vec<DownloadResponse>) -> (r: String)
    ensures
        r@ == seq!['['] + spec_jobs_json(jobs.deep_view()) + seq![']'],
{
    let mut out = String::from_str("[");
    proof {
        reveal_strlit("[");
        reveal_strlit("]");
        reveal_strlit(",");
        assert(jobs.deep_view().subrange(0, 0) =~= Seq::<JobView>::empty());
        assert(out@ =~= seq!['['] + spec_jobs_json(jobs.deep_view().subrange(0, 0)));
    }
    let n = jobs.len();
    let mut i: usize = 0;
    while i < n
        invariant
            i <= n,
            n == jobs@.len(),
            out@ == seq!['['] + spec_jobs_json(jobs.deep_view().subrange(0, i as int)),
        decreases n - i,
    {
        if i > 0 {
            out.append(",");
        }
        let jj = job_json(&jobs[i]);
        out.append(jj.as_str());
        proof {
            let cur = jobs.deep_view().subrange(0, i + 1);
            assert(cur.drop_last() =~= jobs.deep_view().subrange(0, i as int));
            assert(cur.last() == jobs.deep_view()[i as int]);
            assert(out@ =~= seq!['['] + spec_jobs_json(cur));
        }
        i += 1;
    }
    out.append("]");
    proof {
        assert(jobs.deep_view().subrange(0, n as int) =~= jobs.deep_view());
        assert(out@ =~= seq!['['] + spec_jobs_json(jobs.deep_view()) + seq![']']);
    }
    out
}

} // verus!
