//! Data model of the service: jobs, tags, webhooks, request and response
//! shapes, and the job state machine with its invariant.

use vstd::prelude::*;
use vstd::string::StringExecFns;

use crate::sys;
use crate::text::str_eq;

verus! {

/// What a job asks for.
#[derive(Clone, Copy, Debug, PartialEq, Eq, Structural)]
pub enum DownloadType {
    Video,
    Audio,
    Instrumental,
}

/// Where a job stands in its life cycle. `Completed` and `Failed` are
/// terminal; `Converting` is entered only from `Completed`.
#[derive(Clone, Copy, Debug, PartialEq, Eq, Structural)]
pub enum DownloadStatus {
    Pending,
    Downloading,
    Processing,
    Completed,
    Failed,
    Converting,
}

pub open spec fn spec_download_type_string(dt: DownloadType) -> Seq<char> {
    match dt {
        DownloadType::Video => "video"@,
        DownloadType::Audio => "audio"@,
        DownloadType::Instrumental => "instrumental"@,
    }
}

/// Storage name of a download type.
pub fn download_type_to_string(dt: &DownloadType) -> (r: String)
    ensures
        r@ == spec_download_type_string(*dt),
{
    match dt {
        DownloadType::Video => String::from_str("video"),
        DownloadType::Audio => String::from_str("audio"),
        DownloadType::Instrumental => String::from_str("instrumental"),
    }
}

pub open spec fn spec_string_to_download_type(s: Seq<char>) -> DownloadType {
    if s == "video"@ {
        DownloadType::Video
    } else if s == "audio"@ {
        DownloadType::Audio
    } else if s == "instrumental"@ {
        DownloadType::Instrumental
    } else {
        DownloadType::Video
    }
}

/// Reads a download type back from its storage name; unknown names fall
/// back to `Video`.
pub fn string_to_download_type(s: &str) -> (r: DownloadType)
    ensures
        r == spec_string_to_download_type(s@),
{
    if str_eq(s, "video") {
        DownloadType::Video
    } else if str_eq(s, "audio") {
        DownloadType::Audio
    } else if str_eq(s, "instrumental") {
        DownloadType::Instrumental
    } else {
        DownloadType::Video
    }
}

pub open spec fn spec_status_string(st: DownloadStatus) -> Seq<char> {
    match st {
        DownloadStatus::Pending => "pending"@,
        DownloadStatus::Downloading => "downloading"@,
        DownloadStatus::Processing => "processing"@,
        DownloadStatus::Completed => "completed"@,
        DownloadStatus::Failed => "failed"@,
        DownloadStatus::Converting => "converting"@,
    }
}

/// Storage name of a status.
pub fn status_to_string(status: &DownloadStatus) -> (r: String)
    ensures
        r@ == spec_status_string(*status),
{
    match status {
        DownloadStatus::Pending => String::from_str("pending"),
        DownloadStatus::Downloading => String::from_str("downloading"),
        DownloadStatus::Processing => String::from_str("processing"),
        DownloadStatus::Completed => String::from_str("completed"),
        DownloadStatus::Failed => String::from_str("failed"),
        DownloadStatus::Converting => String::from_str("converting"),
    }
}

pub open spec fn spec_string_to_status(s: Seq<char>) -> DownloadStatus {
    if s == "pending"@ {
        DownloadStatus::Pending
    } else if s == "downloading"@ {
        DownloadStatus::Downloading
    } else if s == "processing"@ {
        DownloadStatus::Processing
    } else if s == "completed"@ {
        DownloadStatus::Completed
    } else if s == "failed"@ {
        DownloadStatus::Failed
    } else if s == "converting"@ {
        DownloadStatus::Converting
    } else {
        DownloadStatus::Pending
    }
}

/// Reads a status back from its storage name; unknown names fall back to
/// `Pending`.
pub fn string_to_status(s: &str) -> (r: DownloadStatus)
    ensures
        r == spec_string_to_status(s@),
{
    if str_eq(s, "pending") {
        DownloadStatus::Pending
    } else if str_eq(s, "downloading") {
        DownloadStatus::Downloading
    } else if str_eq(s, "processing") {
        DownloadStatus::Processing
    } else if str_eq(s, "completed") {
        DownloadStatus::Completed
    } else if str_eq(s, "failed") {
        DownloadStatus::Failed
    } else if str_eq(s, "converting") {
        DownloadStatus::Converting
    } else {
        DownloadStatus::Pending
    }
}

/// A label that can be attached to any number of jobs.
#[derive(Debug)]
pub struct Tag {
    pub id: String,
    pub name: String,
    pub color: Option<String>,
    pub category: Option<String>,
    pub created_at: i64,
}

/// What a client sends to create a job.
#[derive(Debug, Clone)]
pub struct DownloadRequest {
    pub url: String,
    pub download_type: DownloadType,
    pub format: Option<String>,
    pub resolution: Option<String>,
    pub audio_quality: Option<String>,
    pub custom_filename: Option<String>,
    pub cookies_browser: Option<String>,
    pub download_playlist: Option<bool>,
    pub download_subtitles: Option<bool>,
    pub subtitle_language: Option<String>,
}

/// One tracked job. Progress is a whole percentage in `0..=100`;
/// timestamps are milliseconds since the Unix epoch.
#[derive(Debug)]
pub struct DownloadResponse {
    pub id: String,
    pub status: DownloadStatus,
    pub progress: u32,
    pub message: String,
    pub url: String,
    pub download_type: DownloadType,
    pub created_at: i64,
    pub completed_at: Option<i64>,
    pub file_path: Option<String>,
    pub is_playlist: bool,
    pub total_items: Option<i32>,
    pub completed_items: Option<i32>,
    pub title: Option<String>,
    pub thumbnail: Option<String>,
    pub duration: Option<u64>,
    pub author: Option<String>,
    pub file_size: Option<u64>,
    pub retry_count: Option<u32>,
    pub max_retries: Option<u32>,
    pub notes: Option<String>,
    pub tags: Option<Vec<Tag>>,
    pub original_file_path: Option<String>,
    pub is_favorite: bool,
}

impl DownloadResponse {
    /// The job invariant: progress stays a percentage, and a completion
    /// time is recorded exactly while the job stands `Completed`.
    pub open spec fn wf(self) -> bool {
        &&& self.progress <= 100
        &&& self.completed_at is Some <==> self.status is Completed
    }

    /// Everything except status, progress, message and completion time is
    /// the same in `a` and `b`.
    pub open spec fn same_identity(a: Self, b: Self) -> bool {
        &&& a.id == b.id
        &&& a.url == b.url
        &&& a.download_type == b.download_type
        &&& a.created_at == b.created_at
        &&& a.file_path == b.file_path
        &&& a.is_playlist == b.is_playlist
        &&& a.total_items == b.total_items
        &&& a.completed_items == b.completed_items
        &&& a.title == b.title
        &&& a.thumbnail == b.thumbnail
        &&& a.duration == b.duration
        &&& a.author == b.author
        &&& a.file_size == b.file_size
        &&& a.retry_count == b.retry_count
        &&& a.max_retries == b.max_retries
        &&& a.notes == b.notes
        &&& a.tags == b.tags
        &&& a.original_file_path == b.original_file_path
        &&& a.is_favorite == b.is_favorite
    }

    /// A fresh job: queued, at zero progress, with a fresh 36-character id.
    pub fn new(url: String, download_type: DownloadType) -> (r: Self)
        ensures
            r.wf(),
            r.status is Pending,
            r.progress == 0,
            r.message@ == "Download queued"@,
            r.url == url,
            r.download_type == download_type,
            r.completed_at is None,
            r.file_path is None,
            r.original_file_path is None,
            r.is_playlist == false,
            r.is_favorite == false,
            r.retry_count == Some(0u32),
            r.max_retries == Some(3u32),
            r.id@.len() == 36,
    {
        DownloadResponse {
            id: sys::new_id(),
            status: DownloadStatus::Pending,
            progress: 0,
            message: String::from_str("Download queued"),
            url,
            download_type,
            created_at: sys::now_millis(),
            completed_at: None,
            file_path: None,
            is_playlist: false,
            total_items: None,
            completed_items: None,
            title: None,
            thumbnail: None,
            duration: None,
            author: None,
            file_size: None,
            retry_count: Some(0),
            max_retries: Some(3),
            notes: None,
            tags: None,
            original_file_path: None,
            is_favorite: false,
        }
    }

    /// Moves the job to `status` with a new message. The completion time is
    /// recorded exactly when the new status is `Completed`, and cleared
    /// otherwise, so the invariant is kept.
    pub fn set_status(&mut self, status: DownloadStatus, message: String)
        ensures
            final(self).status == status,
            final(self).message == message,
            final(self).progress == old(self).progress,
            final(self).completed_at is Some <==> status is Completed,
            Self::same_identity(*final(self), *old(self)),
            old(self).wf() ==> final(self).wf(),
    {
        self.status = status;
        self.message = message;
        if status == DownloadStatus::Completed {
            self.completed_at = Some(sys::now_millis());
        } else {
            self.completed_at = None;
        }
    }

    /// Reports new progress. Reaching 100 completes the job; anything less
    /// leaves the status as it stands.
    pub fn update_progress(&mut self, progress: u32, message: String)
        requires
            progress <= 100,
        ensures
            final(self).progress == progress,
            final(self).message == message,
            progress == 100 ==> final(self).status is Completed
                && final(self).completed_at is Some,
            progress < 100 ==> final(self).status == old(self).status
                && final(self).completed_at == old(self).completed_at,
            Self::same_identity(*final(self), *old(self)),
            old(self).wf() ==> final(self).wf(),
    {
        self.progress = progress;
        self.message = message;
        if progress >= 100 {
            self.status = DownloadStatus::Completed;
            self.completed_at = Some(sys::now_millis());
        }
    }
}

/// Mathematical image of a tag.
#[verifier::ext_equal]
pub ghost struct TagView {
    pub id: Seq<char>,
    pub name: Seq<char>,
    pub color: Option<Seq<char>>,
    pub category: Option<Seq<char>>,
    pub created_at: i64,
}

impl View for Tag {
    type V = TagView;

    open spec fn view(&self) -> TagView {
        TagView {
            id: self.id@,
            name: self.name@,
            color: self.color.deep_view(),
            category: self.category.deep_view(),
            created_at: self.created_at,
        }
    }
}

impl DeepView for Tag {
    type V = TagView;

    open spec fn deep_view(&self) -> TagView {
        self.view()
    }
}

impl Clone for Tag {
    fn clone(&self) -> (r: Self)
        ensures
            r@ == self@,
    {
        Tag {
            id: self.id.clone(),
            name: self.name.clone(),
            color: self.color.clone(),
            category: self.category.clone(),
            created_at: self.created_at,
        }
    }
}

/// Mathematical image of a job.
#[verifier::ext_equal]
pub ghost struct JobView {
    pub id: Seq<char>,
    pub status: DownloadStatus,
    pub progress: u32,
    pub message: Seq<char>,
    pub url: Seq<char>,
    pub download_type: DownloadType,
    pub created_at: i64,
    pub completed_at: Option<i64>,
    pub file_path: Option<Seq<char>>,
    pub is_playlist: bool,
    pub total_items: Option<i32>,
    pub completed_items: Option<i32>,
    pub title: Option<Seq<char>>,
    pub thumbnail: Option<Seq<char>>,
    pub duration: Option<u64>,
    pub author: Option<Seq<char>>,
    pub file_size: Option<u64>,
    pub retry_count: Option<u32>,
    pub max_retries: Option<u32>,
    pub notes: Option<Seq<char>>,
    pub tags: Option<Seq<TagView>>,
    pub original_file_path: Option<Seq<char>>,
    pub is_favorite: bool,
}

impl View for DownloadResponse {
    type V = JobView;

    open spec fn view(&self) -> JobView {
        JobView {
            id: self.id@,
            status: self.status,
            progress: self.progress,
            message: self.message@,
            url: self.url@,
            download_type: self.download_type,
            created_at: self.created_at,
            completed_at: self.completed_at,
            file_path: self.file_path.deep_view(),
            is_playlist: self.is_playlist,
            total_items: self.total_items,
            completed_items: self.completed_items,
            title: self.title.deep_view(),
            thumbnail: self.thumbnail.deep_view(),
            duration: self.duration,
            author: self.author.deep_view(),
            file_size: self.file_size,
            retry_count: self.retry_count,
            max_retries: self.max_retries,
            notes: self.notes.deep_view(),
            tags: self.tags.deep_view(),
            original_file_path: self.original_file_path.deep_view(),
            is_favorite: self.is_favorite,
        }
    }
}

impl DeepView for DownloadResponse {
    type V = JobView;

    open spec fn deep_view(&self) -> JobView {
        self.view()
    }
}

pub fn clone_tag_list(v: &Vec<Tag>) -> (r: Vec<Tag>)
    ensures
        r.deep_view() == v.deep_view(),
{
    let mut out: Vec<Tag> = Vec::new();
    let mut i: usize = 0;
    while i < v.len()
        invariant
            i <= v@.len(),
            out@.len() == i,
            forall|j: int| 0 <= j < i ==> #[trigger] out@[j]@ == v@[j]@,
        decreases v@.len() - i,
    {
        out.push(v[i].clone());
        i += 1;
    }
    proof {
        assert(out.deep_view() =~= v.deep_view());
    }
    out
}

impl Clone for DownloadResponse {
    fn clone(&self) -> (r: Self)
        ensures
            r@ == self@,
    {
        DownloadResponse {
            id: self.id.clone(),
            status: self.status,
            progress: self.progress,
            message: self.message.clone(),
            url: self.url.clone(),
            download_type: self.download_type,
            created_at: self.created_at,
            completed_at: self.completed_at,
            file_path: self.file_path.clone(),
            is_playlist: self.is_playlist,
            total_items: self.total_items,
            completed_items: self.completed_items,
            title: self.title.clone(),
            thumbnail: self.thumbnail.clone(),
            duration: self.duration,
            author: self.author.clone(),
            file_size: self.file_size,
            retry_count: self.retry_count,
            max_retries: self.max_retries,
            notes: self.notes.clone(),
            tags: match &self.tags {
                Some(ts) => Some(clone_tag_list(ts)),
                None => None,
            },
            original_file_path: self.original_file_path.clone(),
            is_favorite: self.is_favorite,
        }
    }
}

/// Mathematical image of a webhook.
#[verifier::ext_equal]
pub ghost struct WebhookView {
    pub id: Seq<char>,
    pub url: Seq<char>,
    pub events: Seq<Seq<char>>,
    pub secret: Option<Seq<char>>,
    pub is_active: bool,
    pub created_at: i64,
    pub last_triggered_at: Option<i64>,
}

impl View for Webhook {
    type V = WebhookView;

    open spec fn view(&self) -> WebhookView {
        WebhookView {
            id: self.id@,
            url: self.url@,
            events: self.events.deep_view(),
            secret: self.secret.deep_view(),
            is_active: self.is_active,
            created_at: self.created_at,
            last_triggered_at: self.last_triggered_at,
        }
    }
}

impl DeepView for Webhook {
    type V = WebhookView;

    open spec fn deep_view(&self) -> WebhookView {
        self.view()
    }
}

pub fn clone_string_list(v: &Vec<String>) -> (r: Vec<String>)
    ensures
        r.deep_view() == v.deep_view(),
{
    let mut out: Vec<String> = Vec::new();
    let mut i: usize = 0;
    while i < v.len()
        invariant
            i <= v@.len(),
            out@.len() == i,
            forall|j: int| 0 <= j < i ==> #[trigger] out@[j]@ == v@[j]@,
        decreases v@.len() - i,
    {
        out.push(v[i].clone());
        i += 1;
    }
    proof {
        assert(out.deep_view() =~= v.deep_view());
    }
    out
}

impl Clone for Webhook {
    fn clone(&self) -> (r: Self)
        ensures
            r@ == self@,
    {
        Webhook {
            id: self.id.clone(),
            url: self.url.clone(),
            events: clone_string_list(&self.events),
            secret: self.secret.clone(),
            is_active: self.is_active,
            created_at: self.created_at,
            last_triggered_at: self.last_triggered_at,
        }
    }
}

/// The body of an error reply.
#[derive(Debug, Clone)]
pub struct ErrorResponse {
    pub error: String,
    pub message: String,
}

impl ErrorResponse {
    pub fn new(error: &str, message: String) -> (r: Self)
        ensures
            r.error@ == error@,
            r.message == message,
    {
        ErrorResponse { error: String::from_str(error), message }
    }
}

/// One page of a listing.
#[derive(Debug, Clone)]
pub struct PaginatedResponse<T> {
    pub items: Vec<T>,
    pub total: u64,
    pub page: u32,
    pub per_page: u32,
    pub total_pages: u32,
}

/// Page selection sent by a client.
#[derive(Debug, Clone)]
pub struct PaginationParams {
    pub page: Option<u32>,
    pub per_page: Option<u32>,
}

/// Fields a client may edit on a job.
#[derive(Debug, Clone)]
pub struct UpdateMetadataRequest {
    pub title: Option<String>,
    pub author: Option<String>,
    pub notes: Option<String>,
}

/// A request to convert a completed job's artifact.
#[derive(Debug, Clone)]
pub struct ConvertFileRequest {
    pub format: String,
    pub keep_original: Option<bool>,
}

/// A request to create a tag.
#[derive(Debug, Clone)]
pub struct CreateTagRequest {
    pub name: String,
    pub color: Option<String>,
    pub category: Option<String>,
}

/// A partial update of a tag.
#[derive(Debug, Clone)]
pub struct UpdateTagRequest {
    pub name: Option<String>,
    pub color: Option<String>,
    pub category: Option<String>,
}

/// An external HTTP endpoint subscribed to job events.
#[derive(Debug)]
pub struct Webhook {
    pub id: String,
    pub url: String,
    pub events: Vec<String>,
    pub secret: Option<String>,
    pub is_active: bool,
    pub created_at: i64,
    pub last_triggered_at: Option<i64>,
}

/// A request to register a webhook.
#[derive(Debug, Clone)]
pub struct CreateWebhookRequest {
    pub url: String,
    pub events: Vec<String>,
    pub secret: Option<String>,
}

/// Downloads-per-day point of the statistics endpoints.
#[derive(Debug, Clone)]
pub struct DownloadTrendPoint {
    pub date: String,
    pub count: i64,
    pub total_size: i64,
}

/// Disk-usage-per-day point of the statistics endpoints.
#[derive(Debug, Clone)]
pub struct SpaceEvolutionPoint {
    pub date: String,
    pub total_size: i64,
    pub file_count: i64,
}

/// One collected log line.
#[derive(Debug, Clone)]
pub struct LogEntry {
    pub timestamp: String,
    pub level: String,
    pub message: String,
    pub target: String,
}

/// Filter for the log endpoint.
#[derive(Debug, Clone)]
pub struct LogQuery {
    pub level: Option<String>,
    pub limit: Option<u32>,
}

/// Export format selection.
#[derive(Debug, Clone)]
pub struct ExportParams {
    pub format: Option<String>,
}

/// Query for probing a source URL's metadata.
#[derive(Debug, Clone)]
pub struct VideoInfoQuery {
    pub url: String,
}

/// What the configuration endpoint reports.
#[derive(Debug, Clone)]
pub struct ConfigInfo {
    pub download_directory: String,
    pub download_directory_exists: bool,
    pub download_directory_absolute: String,
    pub config_file_path: String,
}

/// Stored preferences of the command-line front end.
#[derive(Debug, Clone)]
pub struct Config {
    pub default_audio_format: String,
    pub audio_formats: Vec<String>,
    pub default_video_format: String,
    pub download_directory: String,
    pub keep_temporary_files: bool,
}

impl Default for Config {
    /// The stock configuration: mp3 audio (among the four common audio
    /// formats), mp4 video, the current directory, temporaries dropped.
    /// Callers that know the user's download folder put it in afterwards.
    fn default() -> (r: Self)
        ensures
            r.default_audio_format@ == "mp3"@,
            r.default_video_format@ == "mp4"@,
            r.download_directory@ == "."@,
            r.keep_temporary_files == false,
            r.audio_formats.deep_view() == seq!["mp3"@, "m4a"@, "flac"@, "wav"@],
    {
        let mut audio_formats: Vec<String> = Vec::new();
        audio_formats.push(String::from_str("mp3"));
        audio_formats.push(String::from_str("m4a"));
        audio_formats.push(String::from_str("flac"));
        audio_formats.push(String::from_str("wav"));
        proof {
            assert(audio_formats.deep_view() =~= seq!["mp3"@, "m4a"@, "flac"@, "wav"@]);
        }
        Config {
            default_audio_format: String::from_str("mp3"),
            audio_formats,
            default_video_format: String::from_str("mp4"),
            download_directory: String::from_str("."),
            keep_temporary_files: false,
        }
    }
}

} // verus!
