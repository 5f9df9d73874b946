//! The in-memory job store: jobs, tags, their associations, and webhooks,
//! with unique keys and cascading deletes, standing in for the service's
//! row store.

use vstd::prelude::*;
use vstd::string::StringExecFns;

use crate::model::{
    CreateTagRequest, DownloadResponse, JobView, Tag, TagView, Webhook, WebhookView,
};
use crate::sys;
use crate::text::str_eq;
use crate::webhook::{active_webhooks_for_event, spec_webhook_matches};

verus! {

/// One row of the job-tag association table.
#[derive(Debug)]
pub struct TagLink {
    pub download_id: String,
    pub tag_id: String,
}

/// Mathematical image of an association row.
#[verifier::ext_equal]
pub ghost struct LinkView {
    pub download_id: Seq<char>,
    pub tag_id: Seq<char>,
}

impl View for TagLink {
    type V = LinkView;

    open spec fn view(&self) -> LinkView {
        LinkView { download_id: self.download_id@, tag_id: self.tag_id@ }
    }
}

impl DeepView for TagLink {
    type V = LinkView;

    open spec fn deep_view(&self) -> LinkView {
        self.view()
    }
}

impl Clone for TagLink {
    fn clone(&self) -> (r: Self)
        ensures
            r@ == self@,
    {
        TagLink { download_id: self.download_id.clone(), tag_id: self.tag_id.clone() }
    }
}

/// A job id occurs in a job list.
pub open spec fn has_job_id(s: Seq<JobView>, id: Seq<char>) -> bool {
    exists|i: int| 0 <= i < s.len() && s[i].id == id
}

/// A tag id occurs in a tag list.
pub open spec fn has_tag_id(s: Seq<TagView>, id: Seq<char>) -> bool {
    exists|i: int| 0 <= i < s.len() && s[i].id == id
}

/// A tag name occurs in a tag list.
pub open spec fn has_tag_name(s: Seq<TagView>, name: Seq<char>) -> bool {
    exists|i: int| 0 <= i < s.len() && s[i].name == name
}

/// A webhook id occurs in a webhook list.
pub open spec fn has_webhook_id(s: Seq<WebhookView>, id: Seq<char>) -> bool {
    exists|i: int| 0 <= i < s.len() && s[i].id == id
}

/// Every job under a given id replaced by `j`; with unique ids, exactly
/// the one row.
pub open spec fn spec_update_job(s: Seq<JobView>, j: JobView) -> Seq<JobView> {
    Seq::new(s.len(), |i: int| if s[i].id == j.id { j } else { s[i] })
}

/// The store the service keeps its state in. Jobs, tags and webhooks are
/// keyed by unique ids, tag names are unique, association rows are unique
/// pairs of existing keys' texts.
pub struct Store {
    pub jobs: Vec<DownloadResponse>,
    pub tags: Vec<Tag>,
    pub links: Vec<TagLink>,
    pub webhooks: Vec<Webhook>,
}

impl Store {
    /// The store invariant: unique keys, unique tag names, unique
    /// association pairs, and every job sound on its own.
    pub open spec fn wf(self) -> bool {
        &&& forall|i: int, j: int|
            0 <= i < j < self.jobs@.len() ==> #[trigger] self.jobs.deep_view()[i].id
                != #[trigger] self.jobs.deep_view()[j].id
        &&& forall|i: int|
            0 <= i < self.jobs@.len() ==> (#[trigger] self.jobs.deep_view()[i]).progress <= 100
                && (self.jobs.deep_view()[i].completed_at is Some <==> self.jobs.deep_view()[i].status is Completed)
        &&& forall|i: int, j: int|
            0 <= i < j < self.tags@.len() ==> #[trigger] self.tags.deep_view()[i].id
                != #[trigger] self.tags.deep_view()[j].id
        &&& forall|i: int, j: int|
            0 <= i < j < self.tags@.len() ==> self.tags.deep_view()[i].name
                != self.tags.deep_view()[j].name
        &&& forall|i: int, j: int|
            0 <= i < j < self.webhooks@.len() ==> #[trigger] self.webhooks.deep_view()[i].id
                != #[trigger] self.webhooks.deep_view()[j].id
        &&& forall|i: int, j: int|
            0 <= i < j < self.links@.len() ==> #[trigger] self.links.deep_view()[i]
                != #[trigger] self.links.deep_view()[j]
    }

    /// An empty store.
    pub fn new() -> (r: Self)
        ensures
            r.wf(),
            r.jobs@.len() == 0,
            r.tags@.len() == 0,
            r.links@.len() == 0,
            r.webhooks@.len() == 0,
    {
        Store { jobs: Vec::new(), tags: Vec::new(), links: Vec::new(), webhooks: Vec::new() }
    }

    /// Adds a job under a fresh id; an id already present refuses the
    /// insert and leaves the store unchanged.
    #[verifier::loop_isolation(false)]
    pub fn insert_download(&mut self, job: DownloadResponse) -> (r: bool)
        requires
            old(self).wf(),
            job@.progress <= 100,
            job@.completed_at is Some <==> job@.status is Completed,
        ensures
            final(self).wf(),
            r == !has_job_id(old(self).jobs.deep_view(), job@.id),
            r ==> final(self).jobs.deep_view() == old(self).jobs.deep_view().push(job@),
            !r ==> final(self).jobs.deep_view() == old(self).jobs.deep_view(),
            final(self).tags@ == old(self).tags@,
            final(self).links@ == old(self).links@,
            final(self).webhooks@ == old(self).webhooks@,
    {
        let mut i: usize = 0;
        while i < self.jobs.len()
            invariant
                i <= self.jobs@.len(),
                forall|j: int| 0 <= j < i ==> self.jobs.deep_view()[j].id != job@.id,
            decreases self.jobs@.len() - i,
        {
            if str_eq(self.jobs[i].id.as_str(), job.id.as_str()) {
                proof {
                    assert(self.jobs.deep_view()[i as int].id == job@.id);
                }
                return false;
            }
            i += 1;
        }
        self.jobs.push(job);
        proof {
            assert(self.jobs.deep_view() =~= old(self).jobs.deep_view().push(job@));
        }
        true
    }

    /// Looks a job up by id, handing back a copy.
    #[verifier::loop_isolation(false)]
    pub fn get_download(&self, id: &str) -> (r: Option<DownloadResponse>)
        ensures
            r is Some <==> has_job_id(self.jobs.deep_view(), id@),
            r matches Some(j) ==> exists|i: int|
                0 <= i < self.jobs@.len() && (#[trigger] self.jobs.deep_view()[i]).id == id@
                    && j@ == self.jobs.deep_view()[i],
    {
        let mut i: usize = 0;
        while i < self.jobs.len()
            invariant
                i <= self.jobs@.len(),
                forall|j: int| 0 <= j < i ==> self.jobs.deep_view()[j].id != id@,
            decreases self.jobs@.len() - i,
        {
            if str_eq(self.jobs[i].id.as_str(), id) {
                let found = self.jobs[i].clone();
                proof {
                    assert(self.jobs.deep_view()[i as int].id == id@);
                }
                return Some(found);
            }
            i += 1;
        }
        None
    }

    /// Replaces the job that carries `job`'s id; a missing id leaves the
    /// store unchanged.
    #[verifier::loop_isolation(false)]
    pub fn update_download(&mut self, job: DownloadResponse)
        requires
            old(self).wf(),
            job@.progress <= 100,
            job@.completed_at is Some <==> job@.status is Completed,
        ensures
            final(self).wf(),
            final(self).jobs.deep_view() == spec_update_job(old(self).jobs.deep_view(), job@),
            final(self).tags@ == old(self).tags@,
            final(self).links@ == old(self).links@,
            final(self).webhooks@ == old(self).webhooks@,
    {
        let mut i: usize = 0;
        while i < self.jobs.len()
            invariant
                i <= self.jobs@.len(),
                self.jobs@ == old(self).jobs@,
                self.tags@ == old(self).tags@,
                self.links@ == old(self).links@,
                self.webhooks@ == old(self).webhooks@,
                forall|j: int| 0 <= j < i ==> self.jobs.deep_view()[j].id != job@.id,
            decreases self.jobs@.len() - i,
        {
            if str_eq(self.jobs[i].id.as_str(), job.id.as_str()) {
                proof {
                    assert(self.jobs.deep_view()[i as int].id == job@.id);
                }
                self.jobs.remove(i);
                self.jobs.insert(i, job);
                proof {
                    let odv = old(self).jobs.deep_view();
                    let ndv = self.jobs.deep_view();
                    assert forall|k: int| 0 <= k < ndv.len() implies #[trigger] ndv[k]
                        == spec_update_job(odv, job@)[k] by {
                        if k != i {
                            assert(self.jobs@[k] == old(self).jobs@[k]);
                            if odv[k].id == job@.id {
                                assert(odv[i as int].id == job@.id);
                            }
                        }
                    }
                    assert(ndv =~= spec_update_job(odv, job@));
                    assert forall|k: int| 0 <= k < ndv.len() implies #[trigger] ndv[k].id
                        == odv[k].id by {
                        if k != i {
                            assert(self.jobs@[k] == old(self).jobs@[k]);
                        }
                    }
                    assert forall|k: int| 0 <= k < ndv.len() implies (#[trigger] ndv[k]).progress
                        <= 100 && (ndv[k].completed_at is Some <==> ndv[k].status is Completed) by {
                        if odv[k].id == job@.id {
                            assert(ndv[k] == job@);
                        } else {
                            assert(ndv[k] == odv[k]);
                        }
                    }
                    assert(self.tags.deep_view() =~= old(self).tags.deep_view());
                    assert(self.links.deep_view() =~= old(self).links.deep_view());
                    assert(self.webhooks.deep_view() =~= old(self).webhooks.deep_view());
                }
                return ;
            }
            i += 1;
        }
        proof {
            assert(self.jobs.deep_view() =~= spec_update_job(old(self).jobs.deep_view(), job@));
            assert(self.jobs.deep_view() =~= old(self).jobs.deep_view());
            assert(self.tags.deep_view() =~= old(self).tags.deep_view());
            assert(self.links.deep_view() =~= old(self).links.deep_view());
            assert(self.webhooks.deep_view() =~= old(self).webhooks.deep_view());
        }
    }

    /// Every job, newest insertion first.
    #[verifier::loop_isolation(false)]
    pub fn get_all_downloads(&self) -> (r: Vec<DownloadResponse>)
        ensures
            r.deep_view() == self.jobs.deep_view().reverse(),
    {
        let n = self.jobs.len();
        let mut out: Vec<DownloadResponse> = Vec::new();
        let mut i: usize = 0;
        while i < n
            invariant
                i <= n,
                out@.len() == i,
                forall|k: int|
                    0 <= k < i ==> #[trigger] out.deep_view()[k] == self.jobs.deep_view()[n - 1
                        - k],
            decreases n - i,
        {
            let item = self.jobs[n - 1 - i].clone();
            let ghost prev_dv = out.deep_view();
            let ghost item_view = item@;
            out.push(item);
            proof {
                assert(out.deep_view() =~= prev_dv.push(item_view));
            }
            i += 1;
        }
        proof {
            assert(out.deep_view() =~= self.jobs.deep_view().reverse());
        }
        out
    }

    /// One page of the job list, newest insertion first, with the total
    /// row count. Pages are 1-based; a page past the end is empty.
    #[verifier::loop_isolation(false)]
    pub fn get_downloads_paginated(&self, page: u32, per_page: u32) -> (r: (
        Vec<DownloadResponse>,
        u64,
    ))
        requires
            page >= 1,
        ensures
            ({
                let rev = self.jobs.deep_view().reverse();
                let off = if (page - 1) * per_page < rev.len() {
                    (page - 1) * per_page
                } else {
                    rev.len() as int
                };
                let end = if off + per_page < rev.len() {
                    off + per_page
                } else {
                    rev.len() as int
                };
                r.0.deep_view() == rev.subrange(off, end) && r.1 == rev.len()
            }),
    {
        let n = self.jobs.len();
        proof {
            assert(((page - 1) as u64) * (per_page as u64) < 0x10000000000000000u128) by (nonlinear_arith)
                requires
                    (page - 1) as u64 <= 0xffffffffu64,
                    (per_page as u64) <= 0xffffffffu64,
            ;
        }
        let off64: u64 = ((page - 1) as u64) * (per_page as u64);
        let start: usize = if off64 < (n as u64) {
            off64 as usize
        } else {
            n
        };
        let remaining = n - start;
        let take: usize = if (per_page as usize) < remaining {
            per_page as usize
        } else {
            remaining
        };
        let end = start + take;
        let mut out: Vec<DownloadResponse> = Vec::new();
        let mut k: usize = start;
        while k < end
            invariant
                start <= k <= end <= n,
                n == self.jobs@.len(),
                out@.len() == k - start,
                forall|j: int|
                    0 <= j < out@.len() ==> #[trigger] out.deep_view()[j] == self.jobs.deep_view()[
                        n - 1 - (start + j)],
            decreases end - k,
        {
            let item = self.jobs[n - 1 - k].clone();
            let ghost prev_dv = out.deep_view();
            let ghost item_view = item@;
            out.push(item);
            proof {
                assert(out.deep_view() =~= prev_dv.push(item_view));
            }
            k += 1;
        }
        proof {
            let rev = self.jobs.deep_view().reverse();
            assert(out.deep_view() =~= rev.subrange(start as int, end as int));
        }
        (out, n as u64)
    }

    /// Patches the editable metadata of one job: each given field
    /// replaces the stored one, absent fields stay. A missing id changes
    /// nothing.
    pub fn update_metadata(
        &mut self,
        id: &str,
        title: Option<&str>,
        author: Option<&str>,
        notes: Option<&str>,
    ) -> (r: bool)
        requires
            old(self).wf(),
        ensures
            final(self).wf(),
            r == has_job_id(old(self).jobs.deep_view(), id@),
            !r ==> *final(self) == *old(self),
            r ==> exists|i: int|
                0 <= i < old(self).jobs@.len() && (#[trigger] old(self).jobs.deep_view()[i]).id
                    == id@ && final(self).jobs.deep_view() == spec_update_job(
                    old(self).jobs.deep_view(),
                    JobView {
                        title: match title {
                            Option::Some(x) => Some(x@),
                            Option::None => old(self).jobs.deep_view()[i].title,
                        },
                        author: match author {
                            Option::Some(x) => Some(x@),
                            Option::None => old(self).jobs.deep_view()[i].author,
                        },
                        notes: match notes {
                            Option::Some(x) => Some(x@),
                            Option::None => old(self).jobs.deep_view()[i].notes,
                        },
                        ..old(self).jobs.deep_view()[i]
                    },
                ),
            r ==> final(self).tags@ == old(self).tags@ && final(self).links@ == old(self).links@
                && final(self).webhooks@ == old(self).webhooks@,
    {
        let mut job = match self.get_download(id) {
            Some(j) => j,
            None => {
                return false;
            },
        };
        if let Some(x) = title {
            job.title = Some(x.to_owned());
        }
        if let Some(x) = author {
            job.author = Some(x.to_owned());
        }
        if let Some(x) = notes {
            job.notes = Some(x.to_owned());
        }
        proof {
            let i = choose|i: int|
                0 <= i < old(self).jobs@.len() && (#[trigger] old(self).jobs.deep_view()[i]).id
                    == id@ && job@.id == old(self).jobs.deep_view()[i].id;
        }
        self.update_download(job);
        true
    }

    /// Flips a job's favorite flag; a missing id changes nothing.
    pub fn toggle_favorite(&mut self, id: &str) -> (r: bool)
        requires
            old(self).wf(),
        ensures
            final(self).wf(),
            r == has_job_id(old(self).jobs.deep_view(), id@),
            !r ==> *final(self) == *old(self),
            r ==> exists|i: int|
                0 <= i < old(self).jobs@.len() && (#[trigger] old(self).jobs.deep_view()[i]).id
                    == id@ && final(self).jobs.deep_view() == spec_update_job(
                    old(self).jobs.deep_view(),
                    JobView { is_favorite: !old(self).jobs.deep_view()[i].is_favorite, ..old(
                        self,
                    ).jobs.deep_view()[i] },
                ),
            r ==> final(self).tags@ == old(self).tags@ && final(self).links@ == old(self).links@
                && final(self).webhooks@ == old(self).webhooks@,
    {
        let mut job = match self.get_download(id) {
            Some(j) => j,
            None => {
                return false;
            },
        };
        job.is_favorite = !job.is_favorite;
        self.update_download(job);
        true
    }

    /// Creates a tag with a fresh id from a request. A name already in
    /// use refuses the request; a clash of the fresh random id also
    /// refuses it, leaving the store unchanged either way.
    #[verifier::loop_isolation(false)]
    pub fn create_tag(&mut self, request: CreateTagRequest) -> (r: Option<Tag>)
        requires
            old(self).wf(),
        ensures
            final(self).wf(),
            has_tag_name(old(self).tags.deep_view(), request.name@) ==> r is None,
            r is None ==> *final(self) == *old(self),
            r is None ==> has_tag_name(old(self).tags.deep_view(), request.name@) || old(
                self,
            ).tags@.len() > 0,
            r matches Some(tag) ==> !has_tag_name(old(self).tags.deep_view(), request.name@)
                && final(self).tags.deep_view() == old(self).tags.deep_view().push(tag@)
                && tag@.name == request.name@ && tag@.color == request.color.deep_view()
                && tag@.category == request.category.deep_view() && tag@.id.len() == 36
                && final(self).jobs@ == old(self).jobs@ && final(self).links@ == old(self).links@
                && final(self).webhooks@ == old(self).webhooks@,
    {
        let n = self.tags.len();
        let mut i: usize = 0;
        while i < n
            invariant
                i <= n,
                n == self.tags@.len(),
                forall|j: int| 0 <= j < i ==> self.tags.deep_view()[j].name != request.name@,
            decreases n - i,
        {
            if str_eq(self.tags[i].name.as_str(), request.name.as_str()) {
                proof {
                    assert(self.tags.deep_view()[i as int].name == request.name@);
                }
                return None;
            }
            i += 1;
        }
        let id = sys::new_id();
        let mut k: usize = 0;
        while k < n
            invariant
                k <= n,
                n == self.tags@.len(),
                forall|j: int| 0 <= j < k ==> self.tags.deep_view()[j].id != id@,
            decreases n - k,
        {
            if str_eq(self.tags[k].id.as_str(), id.as_str()) {
                return None;
            }
            k += 1;
        }
        let tag = Tag {
            id,
            name: request.name,
            color: request.color,
            category: request.category,
            created_at: sys::now_millis(),
        };
        let copy = tag.clone();
        self.tags.push(tag);
        proof {
            assert(self.tags.deep_view() =~= old(self).tags.deep_view().push(copy@));
        }
        Some(copy)
    }

    /// Looks a tag up by id.
    #[verifier::loop_isolation(false)]
    pub fn get_tag(&self, id: &str) -> (r: Option<Tag>)
        ensures
            r is Some <==> has_tag_id(self.tags.deep_view(), id@),
            r matches Some(t) ==> exists|i: int|
                0 <= i < self.tags@.len() && (#[trigger] self.tags.deep_view()[i]).id == id@
                    && t@ == self.tags.deep_view()[i],
    {
        let mut i: usize = 0;
        while i < self.tags.len()
            invariant
                i <= self.tags@.len(),
                forall|j: int| 0 <= j < i ==> self.tags.deep_view()[j].id != id@,
            decreases self.tags@.len() - i,
        {
            if str_eq(self.tags[i].id.as_str(), id) {
                let found = self.tags[i].clone();
                proof {
                    assert(self.tags.deep_view()[i as int].id == id@);
                }
                return Some(found);
            }
            i += 1;
        }
        None
    }

    /// Looks a tag up by its unique name.
    #[verifier::loop_isolation(false)]
    pub fn get_tag_by_name(&self, name: &str) -> (r: Option<Tag>)
        ensures
            r is Some <==> has_tag_name(self.tags.deep_view(), name@),
            r matches Some(t) ==> exists|i: int|
                0 <= i < self.tags@.len() && (#[trigger] self.tags.deep_view()[i]).name == name@
                    && t@ == self.tags.deep_view()[i],
    {
        let mut i: usize = 0;
        while i < self.tags.len()
            invariant
                i <= self.tags@.len(),
                forall|j: int| 0 <= j < i ==> self.tags.deep_view()[j].name != name@,
            decreases self.tags@.len() - i,
        {
            if str_eq(self.tags[i].name.as_str(), name) {
                let found = self.tags[i].clone();
                proof {
                    assert(self.tags.deep_view()[i as int].name == name@);
                }
                return Some(found);
            }
            i += 1;
        }
        None
    }

    /// Every tag, in creation order.
    #[verifier::loop_isolation(false)]
    pub fn get_all_tags(&self) -> (r: Vec<Tag>)
        ensures
            r.deep_view() == self.tags.deep_view(),
    {
        let r = crate::model::clone_tag_list(&self.tags);
        r
    }

    /// Replaces the tag that carries `tag`'s id. The replacement is
    /// refused when the id is unknown or the new name is already used by
    /// another tag.
    #[verifier::loop_isolation(false)]
    pub fn update_tag(&mut self, tag: Tag) -> (r: bool)
        requires
            old(self).wf(),
        ensures
            final(self).wf(),
            !r ==> *final(self) == *old(self),
            r ==> final(self).tags.deep_view() == spec_update_tag(old(self).tags.deep_view(), tag@)
                && final(self).jobs@ == old(self).jobs@ && final(self).links@ == old(self).links@
                && final(self).webhooks@ == old(self).webhooks@,
            r <==> has_tag_id(old(self).tags.deep_view(), tag@.id) && (forall|i: int|
                0 <= i < old(self).tags@.len() && (#[trigger] old(self).tags.deep_view()[i]).id
                    != tag@.id ==> old(self).tags.deep_view()[i].name != tag@.name),
    {
        let n = self.tags.len();
        // First pass: the new name may not belong to a different tag.
        let mut c: usize = 0;
        while c < n
            invariant
                c <= n,
                n == self.tags@.len(),
                forall|j: int|
                    0 <= j < c && (#[trigger] self.tags.deep_view()[j]).id != tag@.id
                        ==> self.tags.deep_view()[j].name != tag@.name,
            decreases n - c,
        {
            if !str_eq(self.tags[c].id.as_str(), tag.id.as_str()) && str_eq(
                self.tags[c].name.as_str(),
                tag.name.as_str(),
            ) {
                proof {
                    assert(self.tags.deep_view()[c as int].id != tag@.id);
                    assert(self.tags.deep_view()[c as int].name == tag@.name);
                }
                return false;
            }
            c += 1;
        }
        let mut i: usize = 0;
        while i < n
            invariant
                i <= n,
                n == self.tags@.len(),
                *self == *old(self),
                forall|j: int| 0 <= j < i ==> self.tags.deep_view()[j].id != tag@.id,
            decreases n - i,
        {
            if str_eq(self.tags[i].id.as_str(), tag.id.as_str()) {
                proof {
                    assert(self.tags.deep_view()[i as int].id == tag@.id);
                }
                self.tags.remove(i);
                self.tags.insert(i, tag);
                proof {
                    let odv = old(self).tags.deep_view();
                    let ndv = self.tags.deep_view();
                    assert forall|k: int| 0 <= k < ndv.len() implies #[trigger] ndv[k]
                        == spec_update_tag(odv, tag@)[k] by {
                        if k != i {
                            assert(self.tags@[k] == old(self).tags@[k]);
                            if odv[k].id == tag@.id {
                                assert(odv[i as int].id == tag@.id);
                            }
                        }
                    }
                    assert(ndv =~= spec_update_tag(odv, tag@));
                    assert forall|k: int| 0 <= k < ndv.len() implies #[trigger] ndv[k].id
                        == odv[k].id by {
                        if k != i {
                            assert(self.tags@[k] == old(self).tags@[k]);
                        }
                    }
                    assert forall|k: int, l: int| 0 <= k < l < ndv.len() implies ndv[k].name
                        != ndv[l].name by {
                        if k != i && l != i {
                            assert(ndv[k] == odv[k] && ndv[l] == odv[l]);
                        } else if k == i {
                            assert(ndv[l] == odv[l] && odv[l].id != tag@.id);
                        } else {
                            assert(ndv[k] == odv[k] && odv[k].id != tag@.id);
                        }
                    }
                    assert(self.jobs.deep_view() =~= old(self).jobs.deep_view());
                    assert(self.links.deep_view() =~= old(self).links.deep_view());
                    assert(self.webhooks.deep_view() =~= old(self).webhooks.deep_view());
                }
                return true;
            }
            i += 1;
        }
        false
    }

    /// Deletes a tag and every association it appears in; a missing id
    /// changes nothing.
    pub fn delete_tag(&mut self, id: &str) -> (r: bool)
        requires
            old(self).wf(),
        ensures
            final(self).wf(),
            r == has_tag_id(old(self).tags.deep_view(), id@),
            final(self).tags.deep_view() == old(self).tags.deep_view().filter(
                |t: TagView| t.id != id@,
            ),
            final(self).links.deep_view() == old(self).links.deep_view().filter(
                |l: LinkView| l.tag_id != id@,
            ),
            final(self).jobs@ == old(self).jobs@,
            final(self).webhooks@ == old(self).webhooks@,
    {
        let (kept, removed) = split_tags_by_id(&self.tags, id);
        self.tags = kept;
        let kept_links = links_without_tag(&self.links, id);
        self.links = kept_links;
        proof {
            assert(self.jobs.deep_view() =~= old(self).jobs.deep_view());
            assert(self.webhooks.deep_view() =~= old(self).webhooks.deep_view());
        }
        match removed {
            Some(_) => true,
            None => false,
        }
    }

    fn has_link(&self, download_id: &str, tag_id: &str) -> (r: bool)
        ensures
            r == spec_linked(self.links.deep_view(), download_id@, tag_id@),
    {
        let mut i: usize = 0;
        while i < self.links.len()
            invariant
                i <= self.links@.len(),
                forall|j: int|
                    0 <= j < i ==> #[trigger] self.links.deep_view()[j] != (LinkView {
                        download_id: download_id@,
                        tag_id: tag_id@,
                    }),
            decreases self.links@.len() - i,
        {
            if str_eq(self.links[i].download_id.as_str(), download_id) && str_eq(
                self.links[i].tag_id.as_str(),
                tag_id,
            ) {
                proof {
                    assert(self.links.deep_view()[i as int] == (LinkView {
                        download_id: download_id@,
                        tag_id: tag_id@,
                    }));
                }
                return true;
            }
            i += 1;
        }
        false
    }

    /// Attaches a tag to a job; an association already present is kept
    /// silently, as the row store's insert-or-ignore would.
    #[verifier::loop_isolation(false)]
    pub fn add_tag_to_download(&mut self, download_id: &str, tag_id: &str)
        requires
            old(self).wf(),
        ensures
            final(self).wf(),
            spec_linked(old(self).links.deep_view(), download_id@, tag_id@) ==> *final(self)
                == *old(self),
            !spec_linked(old(self).links.deep_view(), download_id@, tag_id@)
                ==> final(self).links.deep_view() == old(self).links.deep_view().push(
                LinkView { download_id: download_id@, tag_id: tag_id@ },
            ) && final(self).jobs@ == old(self).jobs@ && final(self).tags@ == old(self).tags@
                && final(self).webhooks@ == old(self).webhooks@,
    {
        if self.has_link(download_id, tag_id) {
            return ;
        }
        let link = TagLink { download_id: download_id.to_owned(), tag_id: tag_id.to_owned() };
        self.links.push(link);
        proof {
            assert(self.links.deep_view() =~= old(self).links.deep_view().push(
                LinkView { download_id: download_id@, tag_id: tag_id@ },
            ));
            assert(self.jobs.deep_view() =~= old(self).jobs.deep_view());
            assert(self.tags.deep_view() =~= old(self).tags.deep_view());
            assert(self.webhooks.deep_view() =~= old(self).webhooks.deep_view());
        }
    }

    /// Detaches a tag from a job; a missing association changes nothing.
    pub fn remove_tag_from_download(&mut self, download_id: &str, tag_id: &str)
        requires
            old(self).wf(),
        ensures
            final(self).wf(),
            final(self).links.deep_view() == old(self).links.deep_view().filter(
                |l: LinkView| l != (LinkView { download_id: download_id@, tag_id: tag_id@ }),
            ),
            final(self).jobs@ == old(self).jobs@,
            final(self).tags@ == old(self).tags@,
            final(self).webhooks@ == old(self).webhooks@,
    {
        let kept = links_without_pair(&self.links, download_id, tag_id);
        self.links = kept;
        proof {
            assert(self.jobs.deep_view() =~= old(self).jobs.deep_view());
            assert(self.tags.deep_view() =~= old(self).tags.deep_view());
            assert(self.webhooks.deep_view() =~= old(self).webhooks.deep_view());
        }
    }

    /// The tags attached to a job, in tag-creation order.
    #[verifier::loop_isolation(false)]
    pub fn get_download_tags(&self, download_id: &str) -> (r: Vec<Tag>)
        ensures
            r.deep_view() == self.tags.deep_view().filter(
                |t: TagView| spec_linked(self.links.deep_view(), download_id@, t.id),
            ),
    {
        let ghost pred = |t: TagView| spec_linked(self.links.deep_view(), download_id@, t.id);
        let mut out: Vec<Tag> = Vec::new();
        proof {
            assert(self.tags.deep_view().subrange(0, 0).filter(pred) =~= Seq::<TagView>::empty());
        }
        let n = self.tags.len();
        let mut i: usize = 0;
        while i < n
            invariant
                i <= n,
                n == self.tags@.len(),
                out.deep_view() == self.tags.deep_view().subrange(0, i as int).filter(pred),
            decreases n - i,
        {
            let ghost prefix = self.tags.deep_view().subrange(0, i as int);
            let ghost cur = self.tags.deep_view()[i as int];
            proof {
                prefix.lemma_filter_push(cur, pred);
                assert(self.tags.deep_view().subrange(0, i + 1) =~= prefix.push(cur));
            }
            if self.has_link(download_id, self.tags[i].id.as_str()) {
                out.push(self.tags[i].clone());
                proof {
                    assert(out.deep_view().last() == cur);
                }
            }
            proof {
                assert(out.deep_view() =~= self.tags.deep_view().subrange(0, i + 1).filter(pred));
            }
            i += 1;
        }
        proof {
            assert(self.tags.deep_view().subrange(0, n as int) =~= self.tags.deep_view());
        }
        out
    }

    /// Replaces a job's whole tag set. A request that names the same tag
    /// twice is refused, as the row store's unique key would refuse it.
    #[verifier::loop_isolation(false)]
    pub fn set_download_tags(&mut self, download_id: &str, tag_ids: &Vec<String>) -> (r: bool)
        requires
            old(self).wf(),
        ensures
            final(self).wf(),
            r == (forall|i: int, j: int|
                0 <= i < j < tag_ids@.len() ==> tag_ids.deep_view()[i] != tag_ids.deep_view()[j]),
            !r ==> *final(self) == *old(self),
            r ==> final(self).links.deep_view() == old(self).links.deep_view().filter(
                |l: LinkView| l.download_id != download_id@,
            ) + Seq::new(
                tag_ids@.len() as nat,
                |i: int| LinkView { download_id: download_id@, tag_id: tag_ids.deep_view()[i] },
            ) && final(self).jobs@ == old(self).jobs@ && final(self).tags@ == old(self).tags@
                && final(self).webhooks@ == old(self).webhooks@,
    {
        let m = tag_ids.len();
        let mut a: usize = 0;
        while a < m
            invariant
                a <= m,
                m == tag_ids@.len(),
                forall|i: int, j: int|
                    0 <= i < j < a ==> tag_ids.deep_view()[i] != tag_ids.deep_view()[j],
                forall|i: int, j: int|
                    0 <= i < a && i < j < m ==> tag_ids.deep_view()[i] != tag_ids.deep_view()[j],
            decreases m - a,
        {
            let mut b: usize = a + 1;
            while b < m
                invariant
                    a < b <= m,
                    m == tag_ids@.len(),
                    forall|j: int| a < j < b ==> tag_ids.deep_view()[a as int]
                        != tag_ids.deep_view()[j],
                decreases m - b,
            {
                if str_eq(tag_ids[a].as_str(), tag_ids[b].as_str()) {
                    proof {
                        assert(tag_ids.deep_view()[a as int] == tag_ids.deep_view()[b as int]);
                    }
                    return false;
                }
                b += 1;
            }
            a += 1;
        }
        let ghost new_links = Seq::new(
            tag_ids@.len() as nat,
            |i: int| LinkView { download_id: download_id@, tag_id: tag_ids.deep_view()[i] },
        );
        let kept = links_without_download(&self.links, download_id);
        let ghost kept_dv = kept.deep_view();
        self.links = kept;
        let base = self.links.len();
        let mut k: usize = 0;
        while k < m
            invariant
                k <= m,
                m == tag_ids@.len(),
                self.jobs@ == old(self).jobs@,
                self.tags@ == old(self).tags@,
                self.webhooks@ == old(self).webhooks@,
                base == kept_dv.len(),
                self.links@.len() == base + k,
                self.links.deep_view() == kept_dv + new_links.subrange(0, k as int),
                forall|i: int, j: int|
                    0 <= i < j < m ==> tag_ids.deep_view()[i] != tag_ids.deep_view()[j],
                forall|a0: int, b0: int|
                    0 <= a0 < b0 < kept_dv.len() ==> kept_dv[a0] != kept_dv[b0],
                forall|a0: int|
                    0 <= a0 < kept_dv.len() ==> (#[trigger] kept_dv[a0]).download_id
                        != download_id@,
            decreases m - k,
        {
            let link = TagLink {
                download_id: download_id.to_owned(),
                tag_id: tag_ids[k].clone(),
            };
            let ghost prev = self.links.deep_view();
            self.links.push(link);
            proof {
                assert(self.links.deep_view() =~= prev.push(new_links[k as int]));
                assert(self.links.deep_view() =~= kept_dv + new_links.subrange(0, k + 1));
            }
            k += 1;
        }
        proof {
            assert(new_links.subrange(0, m as int) =~= new_links);
            let all = self.links.deep_view();
            assert forall|x: int, y: int| 0 <= x < y < all.len() implies #[trigger] all[x]
                != #[trigger] all[y] by {
                if x < base && y >= base {
                    assert(all[x] == kept_dv[x]);
                    assert(all[y] == new_links[y - base]);
                    assert(kept_dv[x].download_id != download_id@);
                } else if x >= base {
                    assert(all[x] == new_links[x - base]);
                    assert(all[y] == new_links[y - base]);
                    assert(tag_ids.deep_view()[x - base] != tag_ids.deep_view()[y - base]);
                }
            }
            assert(self.jobs.deep_view() =~= old(self).jobs.deep_view());
            assert(self.tags.deep_view() =~= old(self).tags.deep_view());
            assert(self.webhooks.deep_view() =~= old(self).webhooks.deep_view());
        }
        true
    }

    /// Registers a webhook under a fresh id, active, with no delivery
    /// recorded yet. A clash of the fresh random id refuses the request.
    #[verifier::loop_isolation(false)]
    pub fn create_webhook(&mut self, url: &str, events: &Vec<String>, secret: Option<&str>) -> (r:
        Option<Webhook>)
        requires
            old(self).wf(),
        ensures
            final(self).wf(),
            r is None ==> *final(self) == *old(self),
            r is None ==> old(self).webhooks@.len() > 0,
            r matches Some(w) ==> final(self).webhooks.deep_view() == old(
                self,
            ).webhooks.deep_view().push(w@) && w@.url == url@ && w@.events == events.deep_view()
                && w@.secret == (match secret {
                Option::Some(s) => Some(s@),
                Option::None => None::<Seq<char>>,
            }) && w@.is_active == true && w@.last_triggered_at is None && w@.id.len() == 36
                && final(self).jobs@ == old(self).jobs@ && final(self).tags@ == old(self).tags@
                && final(self).links@ == old(self).links@,
    {
        let id = sys::new_id();
        let n = self.webhooks.len();
        let mut k: usize = 0;
        while k < n
            invariant
                k <= n,
                n == self.webhooks@.len(),
                forall|j: int| 0 <= j < k ==> self.webhooks.deep_view()[j].id != id@,
            decreases n - k,
        {
            if str_eq(self.webhooks[k].id.as_str(), id.as_str()) {
                return None;
            }
            k += 1;
        }
        let w = Webhook {
            id,
            url: url.to_owned(),
            events: crate::model::clone_string_list(events),
            secret: match secret {
                Some(s) => Some(s.to_owned()),
                None => None,
            },
            is_active: true,
            created_at: sys::now_millis(),
            last_triggered_at: None,
        };
        let copy = w.clone();
        self.webhooks.push(w);
        proof {
            assert(self.webhooks.deep_view() =~= old(self).webhooks.deep_view().push(copy@));
        }
        Some(copy)
    }

    /// Every webhook, in registration order.
    #[verifier::loop_isolation(false)]
    pub fn get_all_webhooks(&self) -> (r: Vec<Webhook>)
        ensures
            r.deep_view() == self.webhooks.deep_view(),
    {
        let mut out: Vec<Webhook> = Vec::new();
        let mut i: usize = 0;
        while i < self.webhooks.len()
            invariant
                i <= self.webhooks@.len(),
                out@.len() == i,
                forall|j: int|
                    0 <= j < i ==> #[trigger] out.deep_view()[j] == self.webhooks.deep_view()[j],
            decreases self.webhooks@.len() - i,
        {
            let item = self.webhooks[i].clone();
            let ghost prev = out.deep_view();
            let ghost iv = item@;
            out.push(item);
            proof {
                assert(out.deep_view() =~= prev.push(iv));
            }
            i += 1;
        }
        proof {
            assert(out.deep_view() =~= self.webhooks.deep_view());
        }
        out
    }

    /// The active webhooks subscribed to an event, in registration order.
    pub fn get_active_webhooks_for_event(&self, event_type: &str) -> (r: Vec<Webhook>)
        ensures
            r.deep_view() == self.webhooks.deep_view().filter(
                |w: WebhookView| spec_webhook_matches(w, event_type@),
            ),
    {
        active_webhooks_for_event(&self.webhooks, event_type)
    }

    /// Stamps a webhook's last delivery time; a missing id changes
    /// nothing.
    #[verifier::loop_isolation(false)]
    pub fn update_webhook_last_triggered(&mut self, id: &str, now: i64) -> (r: bool)
        requires
            old(self).wf(),
        ensures
            final(self).wf(),
            r == has_webhook_id(old(self).webhooks.deep_view(), id@),
            !r ==> *final(self) == *old(self),
            r ==> final(self).webhooks.deep_view() == Seq::new(
                old(self).webhooks.deep_view().len(),
                |i: int|
                    if old(self).webhooks.deep_view()[i].id == id@ {
                        WebhookView {
                            last_triggered_at: Some(now),
                            ..old(self).webhooks.deep_view()[i]
                        }
                    } else {
                        old(self).webhooks.deep_view()[i]
                    },
            ) && final(self).jobs@ == old(self).jobs@ && final(self).tags@ == old(self).tags@
                && final(self).links@ == old(self).links@,
    {
        let n = self.webhooks.len();
        let mut i: usize = 0;
        while i < n
            invariant
                i <= n,
                n == self.webhooks@.len(),
                *self == *old(self),
                forall|j: int| 0 <= j < i ==> self.webhooks.deep_view()[j].id != id@,
            decreases n - i,
        {
            if str_eq(self.webhooks[i].id.as_str(), id) {
                proof {
                    assert(self.webhooks.deep_view()[i as int].id == id@);
                }
                let mut w = self.webhooks[i].clone();
                w.last_triggered_at = Some(now);
                let ghost wv = w@;
                self.webhooks.remove(i);
                self.webhooks.insert(i, w);
                proof {
                    let odv = old(self).webhooks.deep_view();
                    let ndv = self.webhooks.deep_view();
                    let target = Seq::new(
                        odv.len(),
                        |j: int|
                            if odv[j].id == id@ {
                                WebhookView { last_triggered_at: Some(now), ..odv[j] }
                            } else {
                                odv[j]
                            },
                    );
                    assert forall|k: int| 0 <= k < ndv.len() implies #[trigger] ndv[k]
                        == target[k] by {
                        if k != i {
                            assert(self.webhooks@[k] == old(self).webhooks@[k]);
                            if odv[k].id == id@ {
                                assert(odv[i as int].id == id@);
                            }
                        } else {
                            assert(ndv[k] == wv);
                        }
                    }
                    assert(ndv =~= target);
                    assert forall|k: int| 0 <= k < ndv.len() implies #[trigger] ndv[k].id
                        == odv[k].id by {
                        if k != i {
                            assert(self.webhooks@[k] == old(self).webhooks@[k]);
                        }
                    }
                    assert(self.jobs.deep_view() =~= old(self).jobs.deep_view());
                    assert(self.tags.deep_view() =~= old(self).tags.deep_view());
                    assert(self.links.deep_view() =~= old(self).links.deep_view());
                }
                return true;
            }
            i += 1;
        }
        false
    }

    /// Unregisters a webhook; a missing id changes nothing.
    pub fn delete_webhook(&mut self, id: &str) -> (r: bool)
        requires
            old(self).wf(),
        ensures
            final(self).wf(),
            r == has_webhook_id(old(self).webhooks.deep_view(), id@),
            final(self).webhooks.deep_view() == old(self).webhooks.deep_view().filter(
                |w: WebhookView| w.id != id@,
            ),
            final(self).jobs@ == old(self).jobs@,
            final(self).tags@ == old(self).tags@,
            final(self).links@ == old(self).links@,
    {
        let (kept, had) = split_webhooks_by_id(&self.webhooks, id);
        self.webhooks = kept;
        proof {
            assert(self.jobs.deep_view() =~= old(self).jobs.deep_view());
            assert(self.tags.deep_view() =~= old(self).tags.deep_view());
            assert(self.links.deep_view() =~= old(self).links.deep_view());
        }
        had
    }

    /// Makes sure one named tag exists, creating it with the given color
    /// and category when its name is still free. Existing tags are never
    /// touched: the old tag list stays a prefix of the new one, so every
    /// name that was present stays present. The result says whether the
    /// name is present afterwards; it can be false only when the fresh
    /// random id drawn for the new tag was already taken.
    fn ensure_tag(&mut self, name: &str, category: &str, color: &str) -> (r: bool)
        requires
            old(self).wf(),
        ensures
            final(self).wf(),
            final(self).jobs@ == old(self).jobs@,
            final(self).links@ == old(self).links@,
            final(self).webhooks@ == old(self).webhooks@,
            old(self).tags@.len() <= final(self).tags@.len(),
            forall|i: int|
                0 <= i < old(self).tags@.len() ==> #[trigger] final(self).tags.deep_view()[i]
                    == old(self).tags.deep_view()[i],
            r == has_tag_name(final(self).tags.deep_view(), name@),
            forall|nm: Seq<char>|
                has_tag_name(old(self).tags.deep_view(), nm) ==> #[trigger] has_tag_name(
                    final(self).tags.deep_view(),
                    nm,
                ),
    {
        if self.get_tag_by_name(name).is_some() {
            return true;
        }
        let created = self.create_tag(
            CreateTagRequest {
                name: name.to_owned(),
                color: Some(color.to_owned()),
                category: Some(category.to_owned()),
            },
        );
        proof {
            assert(self.tags.deep_view().len() == self.tags@.len());
            assert(old(self).tags.deep_view().len() == old(self).tags@.len());
            assert forall|nm: Seq<char>|
                has_tag_name(old(self).tags.deep_view(), nm) implies #[trigger] has_tag_name(
                self.tags.deep_view(),
                nm,
            ) by {
                let i = choose|i: int|
                    0 <= i < old(self).tags.deep_view().len() && old(self).tags.deep_view()[i].name
                        == nm;
                assert(self.tags.deep_view()[i] == old(self).tags.deep_view()[i]);
            }
        }
        match created {
            Some(tag) => {
                proof {
                    assert(self.tags.deep_view().last() == tag@);
                    assert(self.tags.deep_view()[self.tags@.len() - 1].name == name@);
                }
                true
            },
            None => {
                proof {
                    assert(!has_tag_name(self.tags.deep_view(), name@));
                }
                false
            },
        }
    }

    /// Seeds the predefined tag set: a handful of content categories and
    /// platform tags, each created only when its name is not taken yet.
    /// Tags already present are left exactly as they are. A true result
    /// says all eleven names stand in the store afterwards; false can
    /// only come from a fresh random tag id clashing with an existing
    /// one.
    pub fn initialize_default_tags(&mut self) -> (r: bool)
        requires
            old(self).wf(),
        ensures
            final(self).wf(),
            final(self).jobs@ == old(self).jobs@,
            final(self).links@ == old(self).links@,
            final(self).webhooks@ == old(self).webhooks@,
            old(self).tags@.len() <= final(self).tags@.len(),
            forall|i: int|
                0 <= i < old(self).tags@.len() ==> #[trigger] final(self).tags.deep_view()[i]
                    == old(self).tags.deep_view()[i],
            r ==> has_tag_name(final(self).tags.deep_view(), "Musique"@) && has_tag_name(
                final(self).tags.deep_view(),
                "Films"@,
            ) && has_tag_name(final(self).tags.deep_view(), "Educatif"@) && has_tag_name(
                final(self).tags.deep_view(),
                "Divertissement"@,
            ) && has_tag_name(final(self).tags.deep_view(), "Podcast"@) && has_tag_name(
                final(self).tags.deep_view(),
                "Documentaire"@,
            ) && has_tag_name(final(self).tags.deep_view(), "Tutoriel"@) && has_tag_name(
                final(self).tags.deep_view(),
                "YouTube"@,
            ) && has_tag_name(final(self).tags.deep_view(), "Vimeo"@) && has_tag_name(
                final(self).tags.deep_view(),
                "TikTok"@,
            ) && has_tag_name(final(self).tags.deep_view(), "SoundCloud"@),
    {
        let mut ok = self.ensure_tag("Musique", "Musique", "#8b5cf6");
        let e = self.ensure_tag("Films", "Films", "#ef4444");
        ok = ok && e;
        let e = self.ensure_tag("Educatif", "Educatif", "#06b6d4");
        ok = ok && e;
        let e = self.ensure_tag("Divertissement", "Divertissement", "#f59e0b");
        ok = ok && e;
        let e = self.ensure_tag("Podcast", "Podcast", "#ec4899");
        ok = ok && e;
        let e = self.ensure_tag("Documentaire", "Documentaire", "#10b981");
        ok = ok && e;
        let e = self.ensure_tag("Tutoriel", "Tutoriel", "#3b82f6");
        ok = ok && e;
        let e = self.ensure_tag("YouTube", "Plateforme", "#ff0000");
        ok = ok && e;
        let e = self.ensure_tag("Vimeo", "Plateforme", "#1ab7ea");
        ok = ok && e;
        let e = self.ensure_tag("TikTok", "Plateforme", "#000000");
        ok = ok && e;
        let e = self.ensure_tag("SoundCloud", "Plateforme", "#ff7700");
        ok = ok && e;
        ok
    }

    /// Deletes a job and every tag association it holds, handing the
    /// removed job back; a missing id changes nothing.
    pub fn remove_download(&mut self, id: &str) -> (r: Option<DownloadResponse>)
        requires
            old(self).wf(),
        ensures
            final(self).wf(),
            r is Some <==> has_job_id(old(self).jobs.deep_view(), id@),
            r matches Some(j) ==> has_job_id(old(self).jobs.deep_view(), id@) && j@.id == id@,
            final(self).jobs.deep_view() == old(self).jobs.deep_view().filter(
                |j: JobView| j.id != id@,
            ),
            final(self).links.deep_view() == old(self).links.deep_view().filter(
                |l: LinkView| l.download_id != id@,
            ),
            final(self).tags@ == old(self).tags@,
            final(self).webhooks@ == old(self).webhooks@,
    {
        let (kept, removed) = split_jobs_by_id(&self.jobs, id);
        self.jobs = kept;
        // Cascade: the association rows of the deleted job go with it.
        let kept_links = links_without_download(&self.links, id);
        self.links = kept_links;
        proof {
            assert(self.tags.deep_view() =~= old(self).tags.deep_view());
            assert(self.webhooks.deep_view() =~= old(self).webhooks.deep_view());
        }
        removed
    }
}

/// Partitions a job list: everything but the jobs under `id` on the left,
/// one removed job (when present) on the right.
#[verifier::loop_isolation(false)]
fn split_jobs_by_id(jobs: &Vec<DownloadResponse>, id: &str) -> (r: (
    Vec<DownloadResponse>,
    Option<DownloadResponse>,
))
    requires
        forall|i: int, j: int|
            0 <= i < j < jobs@.len() ==> #[trigger] jobs.deep_view()[i].id
                != #[trigger] jobs.deep_view()[j].id,
        forall|i: int|
            0 <= i < jobs@.len() ==> (#[trigger] jobs.deep_view()[i]).progress <= 100 && (
            jobs.deep_view()[i].completed_at is Some <==> jobs.deep_view()[i].status is Completed),
    ensures
        r.0.deep_view() == jobs.deep_view().filter(|j: JobView| j.id != id@),
        r.1 is Some <==> has_job_id(jobs.deep_view(), id@),
        r.1 matches Some(j) ==> j@.id == id@,
        forall|a: int, b: int|
            0 <= a < b < r.0@.len() ==> #[trigger] r.0.deep_view()[a].id
                != #[trigger] r.0.deep_view()[b].id,
        forall|a: int|
            0 <= a < r.0@.len() ==> (#[trigger] r.0.deep_view()[a]).progress <= 100 && (
            r.0.deep_view()[a].completed_at is Some
                <==> r.0.deep_view()[a].status is Completed),
{
    let ghost jpred = |j: JobView| j.id != id@;
    let mut removed: Option<DownloadResponse> = None;
    let mut kept: Vec<DownloadResponse> = Vec::new();
    proof {
        assert(jobs.deep_view().subrange(0, 0).filter(jpred) =~= Seq::<JobView>::empty());
    }
    let n = jobs.len();
    let mut i: usize = 0;
    while i < n
        invariant
            i <= n,
            kept.deep_view() == jobs.deep_view().subrange(0, i as int).filter(jpred),
            forall|a: int|
                0 <= a < kept@.len() ==> exists|oi: int|
                    0 <= oi < i && #[trigger] kept.deep_view()[a] == jobs.deep_view()[oi],
            forall|a: int, b: int|
                0 <= a < b < kept@.len() ==> #[trigger] kept.deep_view()[a].id
                    != #[trigger] kept.deep_view()[b].id,
            forall|a: int|
                0 <= a < kept@.len() ==> (#[trigger] kept.deep_view()[a]).progress <= 100 && (
                kept.deep_view()[a].completed_at is Some
                    <==> kept.deep_view()[a].status is Completed),
            removed is Some <==> has_job_id(jobs.deep_view().subrange(0, i as int), id@),
            removed matches Some(j) ==> j@.id == id@,
        decreases n - i,
    {
        let ghost prefix = jobs.deep_view().subrange(0, i as int);
        let ghost cur = jobs.deep_view()[i as int];
        proof {
            prefix.lemma_filter_push(cur, jpred);
            assert(jobs.deep_view().subrange(0, i + 1) =~= prefix.push(cur));
        }
        let is_match = str_eq(jobs[i].id.as_str(), id);
        if is_match {
            removed = Some(jobs[i].clone());
            proof {
                assert(jobs.deep_view().subrange(0, i + 1)[i as int].id == id@);
            }
        } else {
            proof {
                assert forall|a: int|
                    0 <= a < kept@.len() implies #[trigger] kept.deep_view()[a].id != cur.id by {
                    let oi = choose|oi: int|
                        0 <= oi < i && kept.deep_view()[a] == jobs.deep_view()[oi];
                    assert(jobs.deep_view()[oi].id != jobs.deep_view()[i as int].id);
                }
            }
            kept.push(jobs[i].clone());
            proof {
                assert(kept.deep_view()[kept@.len() - 1] == cur);
                let ext = jobs.deep_view().subrange(0, i + 1);
                if has_job_id(ext, id@) {
                    let j = choose|j: int| 0 <= j < ext.len() && ext[j].id == id@;
                    if j < i {
                        assert(prefix[j].id == id@);
                        assert(has_job_id(prefix, id@));
                    } else {
                        assert(ext[j] == cur);
                    }
                }
                if has_job_id(prefix, id@) {
                    let j = choose|j: int| 0 <= j < prefix.len() && prefix[j].id == id@;
                    assert(ext[j].id == id@);
                    assert(has_job_id(ext, id@));
                }
            }
        }
        proof {
            assert(kept.deep_view() =~= jobs.deep_view().subrange(0, i + 1).filter(jpred));
        }
        i += 1;
    }
    proof {
        assert(jobs.deep_view().subrange(0, n as int) =~= jobs.deep_view());
    }
    (kept, removed)
}

/// The association rows that survive deleting a job.
#[verifier::loop_isolation(false)]
fn links_without_download(links: &Vec<TagLink>, id: &str) -> (r: Vec<TagLink>)
    requires
        forall|i: int, j: int|
            0 <= i < j < links@.len() ==> #[trigger] links.deep_view()[i]
                != #[trigger] links.deep_view()[j],
    ensures
        r.deep_view() == links.deep_view().filter(|l: LinkView| l.download_id != id@),
        forall|a: int, b: int|
            0 <= a < b < r@.len() ==> #[trigger] r.deep_view()[a] != #[trigger] r.deep_view()[b],
{
    let ghost lpred = |l: LinkView| l.download_id != id@;
    let mut kept: Vec<TagLink> = Vec::new();
    proof {
        assert(links.deep_view().subrange(0, 0).filter(lpred) =~= Seq::<LinkView>::empty());
    }
    let n = links.len();
    let mut k: usize = 0;
    while k < n
        invariant
            k <= n,
            kept.deep_view() == links.deep_view().subrange(0, k as int).filter(lpred),
            forall|a: int|
                0 <= a < kept@.len() ==> exists|oi: int|
                    0 <= oi < k && #[trigger] kept.deep_view()[a] == links.deep_view()[oi],
            forall|a: int, b: int|
                0 <= a < b < kept@.len() ==> #[trigger] kept.deep_view()[a]
                    != #[trigger] kept.deep_view()[b],
        decreases n - k,
    {
        let ghost prefix = links.deep_view().subrange(0, k as int);
        let ghost cur = links.deep_view()[k as int];
        proof {
            prefix.lemma_filter_push(cur, lpred);
            assert(links.deep_view().subrange(0, k + 1) =~= prefix.push(cur));
        }
        if !str_eq(links[k].download_id.as_str(), id) {
            proof {
                assert forall|a: int|
                    0 <= a < kept@.len() implies #[trigger] kept.deep_view()[a] != cur by {
                    let oi = choose|oi: int|
                        0 <= oi < k && kept.deep_view()[a] == links.deep_view()[oi];
                    assert(links.deep_view()[oi] != links.deep_view()[k as int]);
                }
            }
            kept.push(links[k].clone());
            proof {
                assert(kept.deep_view()[kept@.len() - 1] == cur);
            }
        }
        proof {
            assert(kept.deep_view() =~= links.deep_view().subrange(0, k + 1).filter(lpred));
        }
        k += 1;
    }
    proof {
        assert(links.deep_view().subrange(0, n as int) =~= links.deep_view());
    }
    kept
}

/// A tag under a given id replaced by `t`.
pub open spec fn spec_update_tag(s: Seq<TagView>, t: TagView) -> Seq<TagView> {
    Seq::new(s.len(), |i: int| if s[i].id == t.id { t } else { s[i] })
}

/// A link row `(download, tag)` occurs in the association list.
pub open spec fn spec_linked(links: Seq<LinkView>, did: Seq<char>, tid: Seq<char>) -> bool {
    exists|i: int|
        0 <= i < links.len() && links[i] == (LinkView { download_id: did, tag_id: tid })
}

/// Partitions a tag list: everything but the tags under `id` on the left,
/// the removed tag (when present) on the right.
#[verifier::loop_isolation(false)]
fn split_tags_by_id(tags: &Vec<Tag>, id: &str) -> (r: (Vec<Tag>, Option<Tag>))
    requires
        forall|i: int, j: int|
            0 <= i < j < tags@.len() ==> #[trigger] tags.deep_view()[i].id
                != #[trigger] tags.deep_view()[j].id,
        forall|i: int, j: int|
            0 <= i < j < tags@.len() ==> tags.deep_view()[i].name != tags.deep_view()[j].name,
    ensures
        r.0.deep_view() == tags.deep_view().filter(|t: TagView| t.id != id@),
        r.1 is Some <==> has_tag_id(tags.deep_view(), id@),
        r.1 matches Some(t) ==> t@.id == id@,
        forall|a: int, b: int|
            0 <= a < b < r.0@.len() ==> #[trigger] r.0.deep_view()[a].id
                != #[trigger] r.0.deep_view()[b].id,
        forall|a: int, b: int|
            0 <= a < b < r.0@.len() ==> r.0.deep_view()[a].name != r.0.deep_view()[b].name,
{
    let ghost tpred = |t: TagView| t.id != id@;
    let mut removed: Option<Tag> = None;
    let mut kept: Vec<Tag> = Vec::new();
    proof {
        assert(tags.deep_view().subrange(0, 0).filter(tpred) =~= Seq::<TagView>::empty());
    }
    let n = tags.len();
    let mut i: usize = 0;
    while i < n
        invariant
            i <= n,
            kept.deep_view() == tags.deep_view().subrange(0, i as int).filter(tpred),
            forall|a: int|
                0 <= a < kept@.len() ==> exists|oi: int|
                    0 <= oi < i && #[trigger] kept.deep_view()[a] == tags.deep_view()[oi],
            forall|a: int, b: int|
                0 <= a < b < kept@.len() ==> #[trigger] kept.deep_view()[a].id
                    != #[trigger] kept.deep_view()[b].id,
            forall|a: int, b: int|
                0 <= a < b < kept@.len() ==> kept.deep_view()[a].name != kept.deep_view()[b].name,
            removed is Some <==> has_tag_id(tags.deep_view().subrange(0, i as int), id@),
            removed matches Some(x) ==> x@.id == id@,
        decreases n - i,
    {
        let ghost prefix = tags.deep_view().subrange(0, i as int);
        let ghost cur = tags.deep_view()[i as int];
        proof {
            prefix.lemma_filter_push(cur, tpred);
            assert(tags.deep_view().subrange(0, i + 1) =~= prefix.push(cur));
        }
        let is_match = str_eq(tags[i].id.as_str(), id);
        if is_match {
            removed = Some(tags[i].clone());
            proof {
                assert(tags.deep_view().subrange(0, i + 1)[i as int].id == id@);
            }
        } else {
            proof {
                assert forall|a: int|
                    0 <= a < kept@.len() implies #[trigger] kept.deep_view()[a].id != cur.id
                        && kept.deep_view()[a].name != cur.name by {
                    let oi = choose|oi: int|
                        0 <= oi < i && kept.deep_view()[a] == tags.deep_view()[oi];
                    assert(tags.deep_view()[oi].id != tags.deep_view()[i as int].id);
                    assert(tags.deep_view()[oi].name != tags.deep_view()[i as int].name);
                }
            }
            kept.push(tags[i].clone());
            proof {
                assert(kept.deep_view()[kept@.len() - 1] == cur);
                let ext = tags.deep_view().subrange(0, i + 1);
                if has_tag_id(ext, id@) {
                    let j = choose|j: int| 0 <= j < ext.len() && ext[j].id == id@;
                    if j < i {
                        assert(prefix[j].id == id@);
                        assert(has_tag_id(prefix, id@));
                    } else {
                        assert(ext[j] == cur);
                    }
                }
                if has_tag_id(prefix, id@) {
                    let j = choose|j: int| 0 <= j < prefix.len() && prefix[j].id == id@;
                    assert(ext[j].id == id@);
                    assert(has_tag_id(ext, id@));
                }
            }
        }
        proof {
            assert(kept.deep_view() =~= tags.deep_view().subrange(0, i + 1).filter(tpred));
        }
        i += 1;
    }
    proof {
        assert(tags.deep_view().subrange(0, n as int) =~= tags.deep_view());
    }
    (kept, removed)
}

/// The association rows that survive deleting a tag.
#[verifier::loop_isolation(false)]
fn links_without_tag(links: &Vec<TagLink>, tag_id: &str) -> (r: Vec<TagLink>)
    requires
        forall|i: int, j: int|
            0 <= i < j < links@.len() ==> #[trigger] links.deep_view()[i]
                != #[trigger] links.deep_view()[j],
    ensures
        r.deep_view() == links.deep_view().filter(|l: LinkView| l.tag_id != tag_id@),
        forall|a: int, b: int|
            0 <= a < b < r@.len() ==> #[trigger] r.deep_view()[a] != #[trigger] r.deep_view()[b],
{
    let ghost lpred = |l: LinkView| l.tag_id != tag_id@;
    let mut kept: Vec<TagLink> = Vec::new();
    proof {
        assert(links.deep_view().subrange(0, 0).filter(lpred) =~= Seq::<LinkView>::empty());
    }
    let n = links.len();
    let mut k: usize = 0;
    while k < n
        invariant
            k <= n,
            kept.deep_view() == links.deep_view().subrange(0, k as int).filter(lpred),
            forall|a: int|
                0 <= a < kept@.len() ==> exists|oi: int|
                    0 <= oi < k && #[trigger] kept.deep_view()[a] == links.deep_view()[oi],
            forall|a: int, b: int|
                0 <= a < b < kept@.len() ==> #[trigger] kept.deep_view()[a]
                    != #[trigger] kept.deep_view()[b],
        decreases n - k,
    {
        let ghost prefix = links.deep_view().subrange(0, k as int);
        let ghost cur = links.deep_view()[k as int];
        proof {
            prefix.lemma_filter_push(cur, lpred);
            assert(links.deep_view().subrange(0, k + 1) =~= prefix.push(cur));
        }
        if !str_eq(links[k].tag_id.as_str(), tag_id) {
            proof {
                assert forall|a: int|
                    0 <= a < kept@.len() implies #[trigger] kept.deep_view()[a] != cur by {
                    let oi = choose|oi: int|
                        0 <= oi < k && kept.deep_view()[a] == links.deep_view()[oi];
                    assert(links.deep_view()[oi] != links.deep_view()[k as int]);
                }
            }
            kept.push(links[k].clone());
            proof {
                assert(kept.deep_view()[kept@.len() - 1] == cur);
            }
        }
        proof {
            assert(kept.deep_view() =~= links.deep_view().subrange(0, k + 1).filter(lpred));
        }
        k += 1;
    }
    proof {
        assert(links.deep_view().subrange(0, n as int) =~= links.deep_view());
    }
    kept
}

/// The association rows that survive detaching one tag from one job.
#[verifier::loop_isolation(false)]
fn links_without_pair(links: &Vec<TagLink>, download_id: &str, tag_id: &str) -> (r: Vec<TagLink>)
    requires
        forall|i: int, j: int|
            0 <= i < j < links@.len() ==> #[trigger] links.deep_view()[i]
                != #[trigger] links.deep_view()[j],
    ensures
        r.deep_view() == links.deep_view().filter(
            |l: LinkView| l != (LinkView { download_id: download_id@, tag_id: tag_id@ }),
        ),
        forall|a: int, b: int|
            0 <= a < b < r@.len() ==> #[trigger] r.deep_view()[a] != #[trigger] r.deep_view()[b],
{
    let ghost lpred = |l: LinkView|
        l != (LinkView { download_id: download_id@, tag_id: tag_id@ });
    let mut kept: Vec<TagLink> = Vec::new();
    proof {
        assert(links.deep_view().subrange(0, 0).filter(lpred) =~= Seq::<LinkView>::empty());
    }
    let n = links.len();
    let mut k: usize = 0;
    while k < n
        invariant
            k <= n,
            kept.deep_view() == links.deep_view().subrange(0, k as int).filter(lpred),
            forall|a: int|
                0 <= a < kept@.len() ==> exists|oi: int|
                    0 <= oi < k && #[trigger] kept.deep_view()[a] == links.deep_view()[oi],
            forall|a: int, b: int|
                0 <= a < b < kept@.len() ==> #[trigger] kept.deep_view()[a]
                    != #[trigger] kept.deep_view()[b],
        decreases n - k,
    {
        let ghost prefix = links.deep_view().subrange(0, k as int);
        let ghost cur = links.deep_view()[k as int];
        proof {
            prefix.lemma_filter_push(cur, lpred);
            assert(links.deep_view().subrange(0, k + 1) =~= prefix.push(cur));
        }
        if !(str_eq(links[k].download_id.as_str(), download_id) && str_eq(
            links[k].tag_id.as_str(),
            tag_id,
        )) {
            proof {
                assert(cur != (LinkView { download_id: download_id@, tag_id: tag_id@ }));
                assert forall|a: int|
                    0 <= a < kept@.len() implies #[trigger] kept.deep_view()[a] != cur by {
                    let oi = choose|oi: int|
                        0 <= oi < k && kept.deep_view()[a] == links.deep_view()[oi];
                    assert(links.deep_view()[oi] != links.deep_view()[k as int]);
                }
            }
            kept.push(links[k].clone());
            proof {
                assert(kept.deep_view()[kept@.len() - 1] == cur);
            }
        } else {
            proof {
                assert(cur == (LinkView { download_id: download_id@, tag_id: tag_id@ }));
            }
        }
        proof {
            assert(kept.deep_view() =~= links.deep_view().subrange(0, k + 1).filter(lpred));
        }
        k += 1;
    }
    proof {
        assert(links.deep_view().subrange(0, n as int) =~= links.deep_view());
    }
    kept
}

/// Partitions a webhook list on an id.
#[verifier::loop_isolation(false)]
fn split_webhooks_by_id(webhooks: &Vec<Webhook>, id: &str) -> (r: (Vec<Webhook>, bool))
    requires
        forall|i: int, j: int|
            0 <= i < j < webhooks@.len() ==> #[trigger] webhooks.deep_view()[i].id
                != #[trigger] webhooks.deep_view()[j].id,
    ensures
        r.0.deep_view() == webhooks.deep_view().filter(|w: WebhookView| w.id != id@),
        r.1 == has_webhook_id(webhooks.deep_view(), id@),
        forall|a: int, b: int|
            0 <= a < b < r.0@.len() ==> #[trigger] r.0.deep_view()[a].id
                != #[trigger] r.0.deep_view()[b].id,
{
    let ghost wpred = |w: WebhookView| w.id != id@;
    let mut found = false;
    let mut kept: Vec<Webhook> = Vec::new();
    proof {
        assert(webhooks.deep_view().subrange(0, 0).filter(wpred) =~= Seq::<WebhookView>::empty());
    }
    let n = webhooks.len();
    let mut i: usize = 0;
    while i < n
        invariant
            i <= n,
            kept.deep_view() == webhooks.deep_view().subrange(0, i as int).filter(wpred),
            forall|a: int|
                0 <= a < kept@.len() ==> exists|oi: int|
                    0 <= oi < i && #[trigger] kept.deep_view()[a] == webhooks.deep_view()[oi],
            forall|a: int, b: int|
                0 <= a < b < kept@.len() ==> #[trigger] kept.deep_view()[a].id
                    != #[trigger] kept.deep_view()[b].id,
            found == has_webhook_id(webhooks.deep_view().subrange(0, i as int), id@),
        decreases n - i,
    {
        let ghost prefix = webhooks.deep_view().subrange(0, i as int);
        let ghost cur = webhooks.deep_view()[i as int];
        proof {
            prefix.lemma_filter_push(cur, wpred);
            assert(webhooks.deep_view().subrange(0, i + 1) =~= prefix.push(cur));
        }
        let is_match = str_eq(webhooks[i].id.as_str(), id);
        if is_match {
            found = true;
            proof {
                assert(webhooks.deep_view().subrange(0, i + 1)[i as int].id == id@);
            }
        } else {
            proof {
                assert forall|a: int|
                    0 <= a < kept@.len() implies #[trigger] kept.deep_view()[a].id != cur.id by {
                    let oi = choose|oi: int|
                        0 <= oi < i && kept.deep_view()[a] == webhooks.deep_view()[oi];
                    assert(webhooks.deep_view()[oi].id != webhooks.deep_view()[i as int].id);
                }
            }
            kept.push(webhooks[i].clone());
            proof {
                assert(kept.deep_view()[kept@.len() - 1] == cur);
                let ext = webhooks.deep_view().subrange(0, i + 1);
                if has_webhook_id(ext, id@) {
                    let j = choose|j: int| 0 <= j < ext.len() && ext[j].id == id@;
                    if j < i {
                        assert(prefix[j].id == id@);
                        assert(has_webhook_id(prefix, id@));
                    } else {
                        assert(ext[j] == cur);
                    }
                }
                if has_webhook_id(prefix, id@) {
                    let j = choose|j: int| 0 <= j < prefix.len() && prefix[j].id == id@;
                    assert(ext[j].id == id@);
                    assert(has_webhook_id(ext, id@));
                }
            }
        }
        proof {
            assert(kept.deep_view() =~= webhooks.deep_view().subrange(0, i + 1).filter(wpred));
        }
        i += 1;
    }
    proof {
        assert(webhooks.deep_view().subrange(0, n as int) =~= webhooks.deep_view());
    }
    (kept, found)
}

} // verus!
