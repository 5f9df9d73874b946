//! The download orchestrator: job creation, the background task's state
//! machine, and the guarantees the state machine gives about every run.

use vstd::prelude::*;
use vstd::string::StringExecFns;

use crate::model::{
    DownloadRequest, DownloadResponse, DownloadStatus, ErrorResponse, JobView, LogEntry, LogQuery,
    PaginatedResponse, PaginationParams,
};
use crate::progress::{spec_heuristic_progress, heuristic_progress};
use crate::store::{has_job_id, Store};
use crate::validation::{spec_url_valid, spec_validation_message, validate_url};
use crate::webhook::{spec_json_escape, json_escape};

verus! {

/// One thing that happens to a job's background task: the task starts,
/// the estimator ticks with the elapsed seconds, or the acquisition
/// engine finishes with an artifact path or an error.
pub enum DownloadEvent {
    Started,
    Tick { elapsed: u64 },
    Finished { result: Result<String, String> },
}

/// Where one event moves the status and progress pair.
pub open spec fn spec_event_step(sp: (DownloadStatus, u32), ev: DownloadEvent) -> (
    DownloadStatus,
    u32,
) {
    match ev {
        DownloadEvent::Started => (DownloadStatus::Downloading, 10u32),
        DownloadEvent::Tick { elapsed } => if sp.0 is Downloading {
            (DownloadStatus::Downloading, spec_heuristic_progress(elapsed))
        } else {
            sp
        },
        DownloadEvent::Finished { result } => match result {
            Result::Ok(_) => (DownloadStatus::Completed, 100u32),
            Result::Err(_) => (DownloadStatus::Failed, sp.1),
        },
    }
}

/// Applies one background-task event to a job. A tick touches the job
/// only while it still stands `Downloading`, so a slow ticker can never
/// overwrite a terminal write.
pub fn apply_download_event(job: &mut DownloadResponse, ev: DownloadEvent)
    requires
        old(job).wf(),
    ensures
        final(job).wf(),
        (final(job).status, final(job).progress) == spec_event_step(
            (old(job).status, old(job).progress),
            ev,
        ),
        ev is Started ==> final(job).message@
            == "Downloading from YouTube... This may take 30-60 seconds depending on video size. Please wait."@
            && DownloadResponse::same_identity(*final(job), *old(job)),
        (ev matches DownloadEvent::Tick { elapsed } && old(job).status is Downloading)
            ==> final(job).message == old(job).message
            && DownloadResponse::same_identity(*final(job), *old(job))
            && final(job).completed_at is None,
        (ev matches DownloadEvent::Tick { elapsed } && !(old(job).status is Downloading))
            ==> *final(job) == *old(job),
        ev matches DownloadEvent::Finished { result } ==> (result matches Ok(path)
            ==> final(job).file_path == Some(path)
            && final(job).message@ == "Download completed successfully"@
            && final(job).completed_at is Some && final(job).id == old(job).id
            && final(job).url == old(job).url
            && final(job).download_type == old(job).download_type
            && final(job).created_at == old(job).created_at && final(job).tags == old(job).tags
            && final(job).original_file_path == old(job).original_file_path),
        ev matches DownloadEvent::Finished { result } ==> (result matches Err(e)
            ==> final(job).message@ == "Download failed: "@ + e@
            && final(job).completed_at is None
            && DownloadResponse::same_identity(*final(job), *old(job))),
{
    match ev {
        DownloadEvent::Started => {
            job.set_status(
                DownloadStatus::Downloading,
                String::from_str(
                    "Downloading from YouTube... This may take 30-60 seconds depending on video size. Please wait.",
                ),
            );
            job.progress = 10;
        },
        DownloadEvent::Tick { elapsed } => {
            if matches!(job.status, DownloadStatus::Downloading) {
                job.progress = heuristic_progress(elapsed);
            }
        },
        DownloadEvent::Finished { result } => {
            match result {
                Ok(path) => {
                    job.set_status(
                        DownloadStatus::Completed,
                        String::from_str("Download completed successfully"),
                    );
                    job.file_path = Some(path);
                    job.progress = 100;
                },
                Err(e) => {
                    let mut m = String::from_str("Download failed: ");
                    m.append(e.as_str());
                    job.set_status(DownloadStatus::Failed, m);
                },
            }
        },
    }
}

/// A complete background run: the task starts, the estimator ticks some
/// number of times, and the engine finishes.
pub open spec fn is_download_run(evs: Seq<DownloadEvent>) -> bool {
    &&& evs.len() >= 2
    &&& evs[0] is Started
    &&& evs.last() is Finished
    &&& forall|i: int| 1 <= i < evs.len() - 1 ==> evs[i] is Tick
}

/// Status and progress after a sequence of events.
pub open spec fn spec_run_state(sp: (DownloadStatus, u32), evs: Seq<DownloadEvent>) -> (
    DownloadStatus,
    u32,
)
    decreases evs.len(),
{
    if evs.len() == 0 {
        sp
    } else {
        spec_run_state(spec_event_step(sp, evs[0]), evs.subrange(1, evs.len() as int))
    }
}

proof fn lemma_run_state_snoc(sp: (DownloadStatus, u32), evs: Seq<DownloadEvent>, ev: DownloadEvent)
    ensures
        spec_run_state(sp, evs.push(ev)) == spec_event_step(spec_run_state(sp, evs), ev),
    decreases evs.len(),
{
    if evs.len() == 0 {
        assert(evs.push(ev)[0] == ev);
        assert(evs.push(ev).subrange(1, evs.push(ev).len() as int) =~= Seq::<
            DownloadEvent,
        >::empty());
        assert(spec_run_state(sp, evs.push(ev)) == spec_run_state(
            spec_event_step(sp, ev),
            Seq::<DownloadEvent>::empty(),
        ));
        assert(spec_run_state(sp, evs) == sp);
    } else {
        let tail = evs.subrange(1, evs.len() as int);
        lemma_run_state_snoc(spec_event_step(sp, evs[0]), tail, ev);
        assert(evs.push(ev).subrange(1, evs.push(ev).len() as int) =~= tail.push(ev));
        assert(evs.push(ev)[0] == evs[0]);
        assert(spec_run_state(sp, evs.push(ev)) == spec_run_state(
            spec_event_step(sp, evs[0]),
            tail.push(ev),
        ));
        assert(spec_run_state(sp, evs) == spec_run_state(spec_event_step(sp, evs[0]), tail));
    }
}

/// On the normal path a job never skips `Downloading`: from `Pending`,
/// every state strictly between the start and the finish of a run stands
/// `Downloading`, and the run ends in a terminal state.
pub proof fn lemma_run_passes_through_downloading(evs: Seq<DownloadEvent>, p0: u32)
    requires
        is_download_run(evs),
    ensures
        forall|i: int|
            1 <= i < evs.len() ==> (#[trigger] spec_run_state(
                (DownloadStatus::Pending, p0),
                evs.subrange(0, i),
            )).0 is Downloading,
        spec_run_state((DownloadStatus::Pending, p0), evs).0 is Completed || spec_run_state(
            (DownloadStatus::Pending, p0),
            evs,
        ).0 is Failed,
{
    let sp0 = (DownloadStatus::Pending, p0);
    assert forall|i: int|
        1 <= i < evs.len() implies (#[trigger] spec_run_state(
        sp0,
        evs.subrange(0, i),
    )).0 is Downloading by {
        lemma_run_prefix_downloading(evs, p0, i);
    }
    let n = evs.len() as int;
    lemma_run_prefix_downloading(evs, p0, n - 1);
    assert(evs =~= evs.subrange(0, n - 1).push(evs.last()));
    lemma_run_state_snoc(sp0, evs.subrange(0, n - 1), evs.last());
}

proof fn lemma_run_prefix_downloading(evs: Seq<DownloadEvent>, p0: u32, i: int)
    requires
        is_download_run(evs),
        1 <= i < evs.len(),
    ensures
        spec_run_state((DownloadStatus::Pending, p0), evs.subrange(0, i)).0 is Downloading,
    decreases i,
{
    let sp0 = (DownloadStatus::Pending, p0);
    if i == 1 {
        assert(evs.subrange(0, 1) =~= Seq::<DownloadEvent>::empty().push(evs[0]));
        lemma_run_state_snoc(sp0, Seq::<DownloadEvent>::empty(), evs[0]);
    } else {
        lemma_run_prefix_downloading(evs, p0, i - 1);
        assert(evs.subrange(0, i) =~= evs.subrange(0, i - 1).push(evs[i - 1]));
        lemma_run_state_snoc(sp0, evs.subrange(0, i - 1), evs[i - 1]);
        assert(evs[i - 1] is Tick);
    }
}

/// While a run keeps downloading, progress never falls: with ticks whose
/// elapsed times do not decrease, each state's progress is at least the
/// previous state's, from the start of the run to its terminal write.
pub proof fn lemma_run_progress_never_decreases(evs: Seq<DownloadEvent>, p0: u32, i: int)
    requires
        is_download_run(evs),
        forall|a: int, b: int|
            1 <= a <= b < evs.len() - 1 ==> (evs[a]->Tick_elapsed <= evs[b]->Tick_elapsed),
        1 <= i < evs.len(),
    ensures
        spec_run_state((DownloadStatus::Pending, p0), evs.subrange(0, i)).1 <= spec_run_state(
            (DownloadStatus::Pending, p0),
            evs.subrange(0, i + 1),
        ).1 || (i == evs.len() - 1 && (evs.last() matches DownloadEvent::Finished {
            result: Result::Err(_),
        })),
    decreases i,
{
    let sp0 = (DownloadStatus::Pending, p0);
    assert(evs.subrange(0, i + 1) =~= evs.subrange(0, i).push(evs[i]));
    lemma_run_state_snoc(sp0, evs.subrange(0, i), evs[i]);
    lemma_run_prefix_downloading(evs, p0, i);
    let before = spec_run_state(sp0, evs.subrange(0, i));
    if i < evs.len() - 1 {
        assert(evs[i] is Tick);
        if i == 1 {
            assert(evs.subrange(0, 1) =~= Seq::<DownloadEvent>::empty().push(evs[0]));
            lemma_run_state_snoc(sp0, Seq::<DownloadEvent>::empty(), evs[0]);
            assert(before.1 == 10);
        } else {
            assert(evs.subrange(0, i) =~= evs.subrange(0, i - 1).push(evs[i - 1]));
            lemma_run_state_snoc(sp0, evs.subrange(0, i - 1), evs[i - 1]);
            lemma_run_prefix_downloading(evs, p0, i - 1);
            assert(evs[i - 1] is Tick);
            assert(before.1 == spec_heuristic_progress(evs[i - 1]->Tick_elapsed));
            crate::progress::lemma_heuristic_progress_monotone(
                evs[i - 1]->Tick_elapsed,
                evs[i]->Tick_elapsed,
            );
        }
    } else {
        match evs[i] {
            DownloadEvent::Finished { result } => {
                match result {
                    Result::Ok(_) => {
                        assert(before.1 <= 100) by {
                            lemma_run_progress_bounded(evs, p0, i);
                        }
                    },
                    Result::Err(_) => {
                    },
                }
            },
            _ => {
            },
        }
    }
}

proof fn lemma_run_progress_bounded(evs: Seq<DownloadEvent>, p0: u32, i: int)
    requires
        is_download_run(evs),
        1 <= i < evs.len(),
    ensures
        spec_run_state((DownloadStatus::Pending, p0), evs.subrange(0, i)).1 <= 100,
    decreases i,
{
    let sp0 = (DownloadStatus::Pending, p0);
    if i == 1 {
        assert(evs.subrange(0, 1) =~= Seq::<DownloadEvent>::empty().push(evs[0]));
        lemma_run_state_snoc(sp0, Seq::<DownloadEvent>::empty(), evs[0]);
    } else {
        lemma_run_progress_bounded(evs, p0, i - 1);
        assert(evs.subrange(0, i) =~= evs.subrange(0, i - 1).push(evs[i - 1]));
        lemma_run_state_snoc(sp0, evs.subrange(0, i - 1), evs[i - 1]);
        assert(evs[i - 1] is Tick);
    }
}

/// The event name a terminal outcome publishes under.
pub fn download_event_name(success: bool) -> (r: &'static str)
    ensures
        success ==> r@ == "download.completed"@,
        !success ==> r@ == "download.failed"@,
{
    if success {
        "download.completed"
    } else {
        "download.failed"
    }
}

/// A JSON string literal, quotes included, or `null` for nothing.
pub open spec fn spec_json_opt_string(v: Option<Seq<char>>) -> Seq<char> {
    match v {
        Option::Some(s) => seq!['"'] + spec_json_escape(s) + seq!['"'],
        Option::None => "null"@,
    }
}

fn json_opt_string(v: Option<&String>) -> (r: String)
    ensures
        r@ == spec_json_opt_string(
            match v {
                Option::Some(s) => Some(s@),
                Option::None => None,
            },
        ),
{
    match v {
        Some(s) => {
            let mut out = String::from_str("\"");
            let esc = json_escape(s.as_str());
            out.append(esc.as_str());
            out.append("\"");
            proof {
                reveal_strlit("\"");
                assert(out@ =~= seq!['"'] + spec_json_escape(s@) + seq!['"']);
            }
            out
        },
        None => String::from_str("null"),
    }
}

/// The event payload published for a finished job: id, outcome, artifact
/// path (or the error), source URL and title.
pub open spec fn spec_terminal_event_data(j: JobView, success: bool, error: Seq<char>) -> Seq<
    char,
> {
    if success {
        "{\"download_id\":\""@ + spec_json_escape(j.id) + "\",\"status\":\"completed\",\"file_path\":"@
            + spec_json_opt_string(j.file_path) + ",\"url\":\""@ + spec_json_escape(j.url)
            + "\",\"title\":"@ + spec_json_opt_string(j.title) + "}"@
    } else {
        "{\"download_id\":\""@ + spec_json_escape(j.id) + "\",\"status\":\"failed\",\"error\":\""@
            + spec_json_escape(error) + "\",\"url\":\""@ + spec_json_escape(j.url)
            + "\",\"title\":"@ + spec_json_opt_string(j.title) + "}"@
    }
}

/// Serializes the event payload for a finished job.
pub fn build_terminal_event_data(job: &DownloadResponse, success: bool, error: &str) -> (r:
    String)
    ensures
        r@ == spec_terminal_event_data(job@, success, error@),
{
    if success {
        let mut out = String::from_str("{\"download_id\":\"");
        let id = json_escape(job.id.as_str());
        out.append(id.as_str());
        out.append("\",\"status\":\"completed\",\"file_path\":");
        let fp = json_opt_string(job.file_path.as_ref());
        out.append(fp.as_str());
        out.append(",\"url\":\"");
        let u = json_escape(job.url.as_str());
        out.append(u.as_str());
        out.append("\",\"title\":");
        let ti = json_opt_string(job.title.as_ref());
        out.append(ti.as_str());
        out.append("}");
        out
    } else {
        let mut out = String::from_str("{\"download_id\":\"");
        let id = json_escape(job.id.as_str());
        out.append(id.as_str());
        out.append("\",\"status\":\"failed\",\"error\":\"");
        let er = json_escape(error);
        out.append(er.as_str());
        out.append("\",\"url\":\"");
        let u = json_escape(job.url.as_str());
        out.append(u.as_str());
        out.append("\",\"title\":");
        let ti = json_opt_string(job.title.as_ref());
        out.append(ti.as_str());
        out.append("}");
        out
    }
}

/// Accepts or rejects a job request. A rejected URL persists nothing and
/// comes back as a synchronous validation error; an accepted one persists
/// a fresh `Pending` job and hands it back for the caller to run.
pub fn create_download(store: &mut Store, request: &DownloadRequest) -> (r: Result<
    DownloadResponse,
    ErrorResponse,
>)
    requires
        old(store).wf(),
    ensures
        final(store).wf(),
        r is Ok <==> spec_url_valid(request.url@),
        r matches Err(e) ==> *final(store) == *old(store) && e.error@ == "validation_error"@
            && e.message@ == spec_validation_message(request.url@),
        r matches Ok(j) ==> j@.status is Pending && j@.progress == 0 && j@.url == request.url@
            && j@.download_type == request.download_type && j@.completed_at is None
            && j@.file_path is None && j@.id.len() == 36 && final(store).tags@ == old(store).tags@
            && final(store).links@ == old(store).links@ && final(store).webhooks@ == old(
            store,
        ).webhooks@ && (if has_job_id(old(store).jobs.deep_view(), j@.id) {
            final(store).jobs.deep_view() == old(store).jobs.deep_view()
        } else {
            final(store).jobs.deep_view() == old(store).jobs.deep_view().push(j@)
        }),
{
    let url = match validate_url(request.url.as_str()) {
        Ok(u) => u,
        Err(e) => {
            return Err(ErrorResponse::new("validation_error", e.message));
        },
    };
    let job = DownloadResponse::new(url, request.download_type);
    let copy = job.clone();
    store.insert_download(job);
    Ok(copy)
}

/// What one batch request produced.
pub struct BatchOutcome {
    pub created: usize,
    pub errors: usize,
    pub error_details: Vec<BatchError>,
}

/// One rejected item of a batch.
pub struct BatchError {
    pub url: String,
    pub error: String,
}

/// Whether a request's URL passes validation.
pub open spec fn spec_request_valid(r: DownloadRequest) -> bool {
    spec_url_valid(r.url@)
}

/// Creates a batch of jobs. Each item goes through the same path as a
/// single request; a rejected item lands in the error list and never
/// stops the rest. Every accepted request's `Pending` job is handed back
/// under that request's URL and its id stands in the store afterwards (a
/// job whose fresh random id was already taken leaves the store's
/// earlier row in place, as the single-request path does); earlier rows
/// survive untouched and the store grows by at most one row per accepted
/// request.
#[verifier::loop_isolation(false)]
pub fn create_batch_downloads(store: &mut Store, requests: &Vec<DownloadRequest>) -> (r: (
    BatchOutcome,
    Vec<DownloadResponse>,
))
    requires
        old(store).wf(),
    ensures
        final(store).wf(),
        r.0.created + r.0.errors == requests@.len(),
        r.0.created == requests@.filter(|q: DownloadRequest| spec_request_valid(q)).len(),
        r.0.error_details@.len() == r.0.errors,
        r.1@.len() == r.0.created,
        forall|k: int|
            0 <= k < r.1@.len() ==> (#[trigger] r.1.deep_view()[k]).status is Pending
                && r.1.deep_view()[k].progress == 0 && r.1.deep_view()[k].completed_at is None
                && r.1.deep_view()[k].file_path is None && r.1.deep_view()[k].id.len() == 36
                && r.1.deep_view()[k].url == requests@.filter(
                |q: DownloadRequest| spec_request_valid(q),
            )[k].url@,
        old(store).jobs@.len() <= final(store).jobs@.len() <= old(store).jobs@.len()
            + r.0.created,
        forall|i: int|
            0 <= i < old(store).jobs@.len() ==> #[trigger] final(store).jobs.deep_view()[i]
                == old(store).jobs.deep_view()[i],
        forall|k: int|
            0 <= k < r.1@.len() ==> has_job_id(
                final(store).jobs.deep_view(),
                (#[trigger] r.1.deep_view()[k]).id,
            ),
        final(store).tags@ == old(store).tags@,
        final(store).links@ == old(store).links@,
        final(store).webhooks@ == old(store).webhooks@,
{
    let ghost vpred = |q: DownloadRequest| spec_request_valid(q);
    let mut created: usize = 0;
    let mut errors: usize = 0;
    let mut error_details: Vec<BatchError> = Vec::new();
    let mut jobs: Vec<DownloadResponse> = Vec::new();
    proof {
        assert(requests@.subrange(0, 0).filter(vpred) =~= Seq::<DownloadRequest>::empty());
    }
    let n = requests.len();
    let mut i: usize = 0;
    while i < n
        invariant
            i <= n,
            n == requests@.len(),
            store.wf(),
            created + errors == i,
            created == requests@.subrange(0, i as int).filter(vpred).len(),
            error_details@.len() == errors,
            jobs@.len() == created,
            forall|k: int|
                0 <= k < jobs@.len() ==> (#[trigger] jobs.deep_view()[k]).status is Pending
                    && jobs.deep_view()[k].progress == 0 && jobs.deep_view()[k].completed_at is None
                    && jobs.deep_view()[k].file_path is None && jobs.deep_view()[k].id.len() == 36
                    && jobs.deep_view()[k].url == requests@.subrange(0, i as int).filter(vpred)[
                k].url@,
            old(store).jobs@.len() <= store.jobs@.len() <= old(store).jobs@.len() + created,
            forall|j: int|
                0 <= j < old(store).jobs@.len() ==> #[trigger] store.jobs.deep_view()[j] == old(
                    store,
                ).jobs.deep_view()[j],
            forall|k: int|
                0 <= k < jobs@.len() ==> has_job_id(
                    store.jobs.deep_view(),
                    (#[trigger] jobs.deep_view()[k]).id,
                ),
            store.tags@ == old(store).tags@,
            store.links@ == old(store).links@,
            store.webhooks@ == old(store).webhooks@,
        decreases n - i,
    {
        let ghost prefix = requests@.subrange(0, i as int);
        let ghost store_before = store.jobs.deep_view();
        proof {
            prefix.lemma_filter_push(requests@[i as int], vpred);
            assert(requests@.subrange(0, i + 1) =~= prefix.push(requests@[i as int]));
            prefix.lemma_filter_len(vpred);
        }
        match create_download(store, &requests[i]) {
            Ok(job) => {
                proof {
                    // The store either gained exactly this job or already
                    // held its id; either way every earlier row is still
                    // in place and every earlier presence witness stands.
                    assert forall|k: int|
                        0 <= k < jobs@.len() implies has_job_id(
                        store.jobs.deep_view(),
                        (#[trigger] jobs.deep_view()[k]).id,
                    ) by {
                        let w = choose|w: int|
                            0 <= w < store_before.len() && store_before[w].id
                                == jobs.deep_view()[k].id;
                        assert(store.jobs.deep_view()[w] == store_before[w]);
                    }
                    if !has_job_id(store_before, job@.id) {
                        assert(store.jobs.deep_view().last() == job@);
                    }
                }
                created += 1;
                let ghost prev_jobs = jobs.deep_view();
                let ghost jv = job@;
                jobs.push(job);
                proof {
                    assert(jobs.deep_view() =~= prev_jobs.push(jv));
                }
            },
            Err(e) => {
                errors += 1;
                error_details.push(BatchError { url: requests[i].url.clone(), error: e.message });
            },
        }
        i += 1;
    }
    proof {
        assert(requests@.subrange(0, n as int) =~= requests@);
    }
    (BatchOutcome { created, errors, error_details }, jobs)
}

/// One page of jobs for a listing request: the page defaults to 1, the
/// page size to 20 within 1 to 100, and the page count rounds up.
pub fn list_downloads(store: &Store, params: &PaginationParams) -> (r: PaginatedResponse<
    DownloadResponse,
>)
    ensures
        r.page == (match params.page {
            Option::Some(p) => if p >= 1 {
                p
            } else {
                1u32
            },
            Option::None => 1u32,
        }),
        r.per_page == (match params.per_page {
            Option::Some(p) => if p < 1 {
                1u32
            } else if p > 100 {
                100u32
            } else {
                p
            },
            Option::None => 20u32,
        }),
        r.total == store.jobs@.len(),
        r.total_pages == vstd::math::min(
            (r.total + r.per_page - 1) as int / (r.per_page as int),
            u32::MAX as int,
        ),
        ({
            let rev = store.jobs.deep_view().reverse();
            let off = if (r.page - 1) * r.per_page < rev.len() {
                (r.page - 1) * r.per_page
            } else {
                rev.len() as int
            };
            let end = if off + r.per_page < rev.len() {
                off + r.per_page
            } else {
                rev.len() as int
            };
            r.items.deep_view() == rev.subrange(off, end)
        }),
{
    let page: u32 = match params.page {
        Some(p) => if p >= 1 {
            p
        } else {
            1
        },
        None => 1,
    };
    let per_page: u32 = match params.per_page {
        Some(p) => if p < 1 {
            1
        } else if p > 100 {
            100
        } else {
            p
        },
        None => 20,
    };
    let (items, total) = store.get_downloads_paginated(page, per_page);
    let tp: u128 = ((total as u128) + (per_page as u128) - 1) / (per_page as u128);
    let total_pages: u32 = if tp > (u32::MAX as u128) {
        u32::MAX
    } else {
        tp as u32
    };
    PaginatedResponse { items, total, page, per_page, total_pages }
}

/// Where the import scan stands after a list of incoming jobs: each item
/// is skipped when its id is already present at that point of the scan,
/// an error when its URL fails validation, and appended otherwise. The
/// result is the final job list and the imported, skipped and error
/// counts.
pub open spec fn spec_import_jobs(jobs: Seq<JobView>, items: Seq<JobView>) -> (
    Seq<JobView>,
    int,
    int,
    int,
)
    decreases items.len(),
{
    if items.len() == 0 {
        (jobs, 0int, 0int, 0int)
    } else {
        let j = items[0];
        let rest = items.subrange(1, items.len() as int);
        if has_job_id(jobs, j.id) {
            let t = spec_import_jobs(jobs, rest);
            (t.0, t.1, t.2 + 1, t.3)
        } else if !spec_url_valid(j.url) {
            let t = spec_import_jobs(jobs, rest);
            (t.0, t.1, t.2, t.3 + 1)
        } else {
            let t = spec_import_jobs(jobs.push(j), rest);
            (t.0, t.1 + 1, t.2, t.3)
        }
    }
}

proof fn lemma_import_jobs_snoc(jobs: Seq<JobView>, items: Seq<JobView>, x: JobView)
    ensures
        spec_import_jobs(jobs, items.push(x)) == ({
            let t = spec_import_jobs(jobs, items);
            if has_job_id(t.0, x.id) {
                (t.0, t.1, t.2 + 1, t.3)
            } else if !spec_url_valid(x.url) {
                (t.0, t.1, t.2, t.3 + 1)
            } else {
                (t.0.push(x), t.1 + 1, t.2, t.3)
            }
        }),
    decreases items.len(),
{
    if items.len() == 0 {
        assert(items.push(x)[0] == x);
        assert(items.push(x).subrange(1, items.push(x).len() as int) =~= Seq::<
            JobView,
        >::empty());
        assert(spec_import_jobs(jobs, Seq::<JobView>::empty()) == (jobs, 0int, 0int, 0int));
        assert(spec_import_jobs(jobs.push(x), Seq::<JobView>::empty()) == (
            jobs.push(x),
            0int,
            0int,
            0int,
        ));
    } else {
        let tail = items.subrange(1, items.len() as int);
        assert(items.push(x).subrange(1, items.push(x).len() as int) =~= tail.push(x));
        assert(items.push(x)[0] == items[0]);
        if has_job_id(jobs, items[0].id) {
            lemma_import_jobs_snoc(jobs, tail, x);
        } else if !spec_url_valid(items[0].url) {
            lemma_import_jobs_snoc(jobs, tail, x);
        } else {
            lemma_import_jobs_snoc(jobs.push(items[0]), tail, x);
        }
    }
}

/// Brings exported jobs back in: a job whose id is already present is
/// skipped, one with an invalid URL is an error, the rest are inserted.
/// The store and the three counts land exactly where the import scan
/// says.
#[verifier::loop_isolation(false)]
pub fn import_downloads(store: &mut Store, downloads: Vec<DownloadResponse>) -> (r: (
    usize,
    usize,
    usize,
))
    requires
        old(store).wf(),
        forall|i: int|
            0 <= i < downloads@.len() ==> (#[trigger] downloads@[i]@).progress <= 100 && (
            downloads@[i]@.completed_at is Some <==> downloads@[i]@.status is Completed),
    ensures
        final(store).wf(),
        r.0 + r.1 + r.2 == downloads@.len(),
        ({
            let t = spec_import_jobs(old(store).jobs.deep_view(), downloads.deep_view());
            final(store).jobs.deep_view() == t.0 && r.0 == t.1 && r.1 == t.2 && r.2 == t.3
        }),
        final(store).tags@ == old(store).tags@,
        final(store).links@ == old(store).links@,
        final(store).webhooks@ == old(store).webhooks@,
{
    let mut imported: usize = 0;
    let mut skipped: usize = 0;
    let mut errors: usize = 0;
    let n = downloads.len();
    let mut i: usize = 0;
    let rest = downloads;
    proof {
        assert(rest.deep_view().subrange(0, 0) =~= Seq::<JobView>::empty());
    }
    while i < n
        invariant
            i <= n,
            n == rest@.len(),
            store.wf(),
            imported + skipped + errors == i,
            ({
                let t = spec_import_jobs(
                    old(store).jobs.deep_view(),
                    rest.deep_view().subrange(0, i as int),
                );
                store.jobs.deep_view() == t.0 && imported == t.1 && skipped == t.2 && errors
                    == t.3
            }),
            store.tags@ == old(store).tags@,
            store.links@ == old(store).links@,
            store.webhooks@ == old(store).webhooks@,
            forall|k: int|
                0 <= k < rest@.len() ==> (#[trigger] rest@[k]@).progress <= 100 && (
                rest@[k]@.completed_at is Some <==> rest@[k]@.status is Completed),
        decreases n - i,
    {
        let ghost prefix = rest.deep_view().subrange(0, i as int);
        let ghost cur = rest.deep_view()[i as int];
        proof {
            assert(rest.deep_view().subrange(0, i + 1) =~= prefix.push(cur));
            lemma_import_jobs_snoc(old(store).jobs.deep_view(), prefix, cur);
        }
        let item = rest[i].clone();
        if store.get_download(item.id.as_str()).is_some() {
            skipped += 1;
        } else if validate_url(item.url.as_str()).is_err() {
            errors += 1;
        } else {
            store.insert_download(item);
            imported += 1;
        }
        i += 1;
    }
    proof {
        assert(rest.deep_view().subrange(0, n as int) =~= rest.deep_view());
    }
    (imported, skipped, errors)
}

/// The log endpoint: nothing is collected yet, so every query reads an
/// empty list.
pub fn get_logs(query: &LogQuery) -> (r: Vec<LogEntry>)
    ensures
        r@.len() == 0,
{
    let _ = query;
    Vec::new()
}

} // verus!
