//! Downloading a job's files: resuming a partial file, keeping server-provided names inside the
//! destination folder, the per-file download as a state machine driven by the caller's I/O, and
//! the overall outcome of a job.
use vstd::prelude::*;

use crate::manifest::opt_view;
use crate::text::{chars_of, decimal, in_class, push_decimal, push_str, string_of, CharClass};

verus! {

/// At most this many files of a job download at the same time.
pub const MAX_CONCURRENT_DOWNLOADS: usize = 4;

/// Progress of one file, as reported to the window.
#[derive(Debug, Clone)]
pub struct DownloadProgressEvent {
    pub file_name: String,
    pub bytes_downloaded: u64,
    pub total_bytes: u64,
    pub done: bool,
    pub error: Option<String>,
}

// ---------------------------------------------------------------------------------------------
// Resuming
// ---------------------------------------------------------------------------------------------

pub open spec fn spec_resume_range(existing_bytes: u64, total_bytes: u64) -> Option<(u64, u64)> {
    if existing_bytes >= total_bytes {
        None
    } else {
        Some((existing_bytes, (total_bytes - 1) as u64))
    }
}

/// Given how many bytes of a file already exist locally and the file's total size, the inclusive
/// byte range still needed, or `None` when nothing more is needed (also when the local file is
/// larger than the total).
pub fn compute_resume_range(existing_bytes: u64, total_bytes: u64) -> (r: Option<(u64, u64)>)
    ensures
        r == spec_resume_range(existing_bytes, total_bytes),
        r matches Some((start, end)) ==> start <= end < total_bytes && end - start + 1
            == total_bytes - existing_bytes,
{
    if existing_bytes >= total_bytes {
        return None;
    }
    Some((existing_bytes, total_bytes - 1))
}

// ---------------------------------------------------------------------------------------------
// File names
// ---------------------------------------------------------------------------------------------

pub open spec fn is_separator(c: char) -> bool {
    in_class(CharClass::PathSeparator, c)
}

/// The text after the last `/` or `\` (all of `s` when there is none).
pub open spec fn last_path_segment(s: Seq<char>) -> Seq<char>
    decreases s.len(),
{
    if s.len() == 0 || is_separator(s.last()) {
        Seq::empty()
    } else {
        last_path_segment(s.drop_last()).push(s.last())
    }
}

pub open spec fn spec_sanitize_file_name(name: Seq<char>) -> Seq<char> {
    let segment = last_path_segment(name);
    if segment.len() == 0 {
        "download"@
    } else {
        segment
    }
}

pub proof fn lemma_last_path_segment(s: Seq<char>, i: int)
    requires
        0 <= i <= s.len(),
        forall|j: int| i <= j < s.len() ==> !is_separator(#[trigger] s[j]),
        i == 0 || is_separator(s[i - 1]),
    ensures
        last_path_segment(s) == s.skip(i),
    decreases s.len() - i,
{
    if i == s.len() {
        assert(s.skip(i) =~= Seq::<char>::empty());
        if s.len() > 0 {
            assert(s.last() == s[i - 1]);
        }
    } else {
        let t = s.drop_last();
        assert(!is_separator(s[s.len() - 1]));
        assert forall|j: int| i <= j < t.len() implies !is_separator(#[trigger] t[j]) by {
            assert(t[j] == s[j]);
        }
        if i > 0 {
            assert(t[i - 1] == s[i - 1]);
        }
        lemma_last_path_segment(t, i);
        assert(t.skip(i).push(s.last()) =~= s.skip(i));
    }
}

/// The last path component of a server-provided file name, split on both `/` and `\`, so that a
/// `../../` name cannot leave the destination folder; `download` when nothing is left.
pub fn sanitize_file_name(name: &str) -> (r: String)
    ensures
        r@ == spec_sanitize_file_name(name@),
{
    let v = chars_of(name);
    let n = v.len();
    let mut i = n;
    while i > 0 && !(v[i - 1] == '/' || v[i - 1] == '\\')
        invariant
            i <= n == v@.len(),
            forall|j: int| i <= j < n ==> !is_separator(#[trigger] v@[j]),
        decreases i,
    {
        i = i - 1;
    }
    proof {
        lemma_last_path_segment(v@, i as int);
        assert(v@.skip(i as int) =~= v@.subrange(i as int, n as int));
    }
    if i == n {
        let mut s = String::new();
        push_str(&mut s, "download");
        s
    } else {
        string_of(&v, i, n)
    }
}

/// A sanitized name is never empty and never contains a path separator.
pub proof fn lemma_sanitized_name_is_plain(name: Seq<char>)
    ensures
        spec_sanitize_file_name(name).len() > 0,
        forall|j: int|
            0 <= j < spec_sanitize_file_name(name).len() ==> !is_separator(
                #[trigger] spec_sanitize_file_name(name)[j],
            ),
{
    reveal_strlit("download");
    let s = last_path_segment(name);
    if s.len() > 0 {
        lemma_segment_has_no_separator(name);
    }
}

proof fn lemma_segment_has_no_separator(s: Seq<char>)
    ensures
        forall|j: int|
            0 <= j < last_path_segment(s).len() ==> !is_separator(#[trigger] last_path_segment(s)[j]),
        last_path_segment(s).len() <= s.len(),
    decreases s.len(),
{
    if s.len() > 0 && !is_separator(s.last()) {
        lemma_segment_has_no_separator(s.drop_last());
        let t = last_path_segment(s.drop_last());
        assert forall|j: int| 0 <= j < t.len() + 1 implies !is_separator(
            #[trigger] t.push(s.last())[j],
        ) by {
            if j < t.len() {
                assert(t.push(s.last())[j] == t[j]);
            }
        }
    }
}

/// Sanitizing is idempotent: a sanitized name is kept as it is.
pub proof fn lemma_sanitize_is_idempotent(name: Seq<char>)
    ensures
        spec_sanitize_file_name(spec_sanitize_file_name(name)) == spec_sanitize_file_name(name),
{
    let once = spec_sanitize_file_name(name);
    lemma_sanitized_name_is_plain(name);
    lemma_last_path_segment(once, 0);
    assert(once.skip(0) =~= once);
}

} // verus!

verus! {

// ---------------------------------------------------------------------------------------------
// One file's download, as a state machine
// ---------------------------------------------------------------------------------------------

/// Where a file's download stands.
#[derive(Debug, Clone, Copy, PartialEq, Eq, Structural)]
pub enum DownloadStage {
    /// Waiting for the size of what already exists locally.
    SizingLocalFile,
    /// Waiting for the response to the request.
    Requesting,
    /// Waiting for the destination file to open.
    Opening,
    /// Waiting for the seek to the resume position.
    Seeking,
    /// Receiving and writing the body.
    Streaming,
    /// Nothing more to do.
    Finished,
}

/// What the caller's I/O reports back.
#[derive(Debug, Clone)]
pub enum DownloadEvent {
    /// The size of the file already at the destination (0 when there is none).
    LocalSize(u64),
    /// The request could not be sent; the error text.
    RequestFailed(String),
    /// The response arrived with this status line.
    ResponseStatus { success: bool, status: String },
    /// The destination could not be opened; the error text.
    OpenFailed(String),
    Opened,
    /// The seek failed; the error text.
    SeekFailed(String),
    Sought,
    /// Reading the next chunk failed; the error text.
    ChunkFailed(String),
    /// Writing a chunk failed; the error text.
    WriteFailed(String),
    /// A chunk of this many bytes was written.
    ChunkWritten(u64),
    /// The body has ended.
    StreamEnded,
}

/// What the caller should do next.
#[derive(Debug)]
pub enum NextStep {
    /// Send the GET request, with this `Range` header value when there is one.
    SendRequest { range_header: Option<String> },
    /// Open (creating if needed) the destination file for writing.
    OpenFile,
    /// Seek the destination file to this byte offset.
    SeekTo(u64),
    /// Read the next chunk of the body and write it.
    ReadChunk,
    /// The download is over with this outcome.
    Finish(Result<(), String>),
}

/// A progress event to emit (if any), then the next step.
#[derive(Debug)]
pub struct DownloadAction {
    pub progress: Option<DownloadProgressEvent>,
    pub next: NextStep,
}

/// The state of one file's download.
#[derive(Debug, Clone)]
pub struct FileDownload {
    /// The sanitized name the file is saved and reported under.
    pub safe_name: String,
    pub total_bytes: u64,
    pub existing_bytes: u64,
    pub start: u64,
    pub end: u64,
    pub downloaded: u64,
    pub stage: DownloadStage,
}

pub open spec fn request_failed_text(name: Seq<char>, detail: Seq<char>) -> Seq<char> {
    "Download failed for "@ + name + ": "@ + detail
}

pub open spec fn bad_status_text(name: Seq<char>, status: Seq<char>) -> Seq<char> {
    "Download failed for "@ + name + ": HTTP "@ + status
}

pub open spec fn open_failed_text(name: Seq<char>, detail: Seq<char>) -> Seq<char> {
    "Could not open "@ + name + " for writing: "@ + detail
}

pub open spec fn seek_failed_text(name: Seq<char>, detail: Seq<char>) -> Seq<char> {
    "Could not seek in "@ + name + ": "@ + detail
}

pub open spec fn chunk_failed_text(name: Seq<char>, detail: Seq<char>) -> Seq<char> {
    "Connection dropped while downloading "@ + name + ": "@ + detail
        + ". Run the download again to resume."@
}

pub open spec fn write_failed_text(name: Seq<char>, detail: Seq<char>) -> Seq<char> {
    "Could not write "@ + name + " to disk: "@ + detail
}

/// The `Range` header value for an inclusive byte range.
pub open spec fn range_header_text(start: u64, end: u64) -> Seq<char> {
    "bytes="@ + decimal(start as nat) + "-"@ + decimal(end as nat)
}

pub open spec fn progress_is(
    p: DownloadProgressEvent,
    name: Seq<char>,
    downloaded: u64,
    total: u64,
    done: bool,
    error: Option<Seq<char>>,
) -> bool {
    &&& p.file_name@ == name
    &&& p.bytes_downloaded == downloaded
    &&& p.total_bytes == total
    &&& p.done == done
    &&& opt_view(p.error) == error
}

/// `t` is `s` with only its stage (and possibly its byte count) changed.
pub open spec fn moved_to(s: FileDownload, t: FileDownload, stage: DownloadStage, downloaded: u64) -> bool {
    &&& t.safe_name == s.safe_name
    &&& t.total_bytes == s.total_bytes
    &&& t.existing_bytes == s.existing_bytes
    &&& t.start == s.start
    &&& t.end == s.end
    &&& t.downloaded == downloaded
    &&& t.stage == stage
}

/// The download stops with the error `message`, reported with `bytes` downloaded.
pub open spec fn fails_with(s: FileDownload, t: FileDownload, a: DownloadAction, bytes: u64, message: Seq<char>) -> bool {
    &&& moved_to(s, t, DownloadStage::Finished, s.downloaded)
    &&& a.progress matches Some(p) && progress_is(p, s.safe_name@, bytes, s.total_bytes, true, Some(message))
    &&& a.next matches NextStep::Finish(Err(e)) && e@ == message
}

/// The download continues at `stage` with step `next` and no progress event.
pub open spec fn continues(s: FileDownload, t: FileDownload, a: DownloadAction, stage: DownloadStage) -> bool {
    &&& moved_to(s, t, stage, s.downloaded)
    &&& a.progress is None
}

impl FileDownload {
    /// The events each stage expects; a written chunk must keep the byte count within `u64`.
    pub open spec fn accepts(&self, e: DownloadEvent) -> bool {
        match self.stage {
            DownloadStage::SizingLocalFile => e is LocalSize,
            DownloadStage::Requesting => e is RequestFailed || e is ResponseStatus,
            DownloadStage::Opening => e is OpenFailed || e is Opened,
            DownloadStage::Seeking => e is SeekFailed || e is Sought,
            DownloadStage::Streaming => match e {
                DownloadEvent::ChunkFailed(_) => true,
                DownloadEvent::WriteFailed(_) => true,
                DownloadEvent::ChunkWritten(n) => self.downloaded + n <= u64::MAX,
                DownloadEvent::StreamEnded => true,
                _ => false,
            },
            DownloadStage::Finished => false,
        }
    }

    /// The stage-by-stage consistency of the byte counters.
    pub open spec fn wf(&self) -> bool {
        &&& spec_sanitize_file_name(self.safe_name@) == self.safe_name@
        &&& match self.stage {
            DownloadStage::SizingLocalFile => self.downloaded == 0,
            DownloadStage::Requesting | DownloadStage::Opening | DownloadStage::Seeking => {
                &&& self.start == self.existing_bytes
                &&& self.start < self.total_bytes
                &&& self.end == self.total_bytes - 1
                &&& self.downloaded == self.start
            },
            DownloadStage::Streaming => {
                &&& self.start < self.total_bytes
                &&& self.end == self.total_bytes - 1
                &&& self.start <= self.downloaded
            },
            DownloadStage::Finished => true,
        }
    }

    /// One transition: how the state `s` and the event `e` give the state `t` and the action `a`.
    pub open spec fn step_spec(s: FileDownload, e: DownloadEvent, t: FileDownload, a: DownloadAction) -> bool {
        let name = s.safe_name@;
        match e {
            DownloadEvent::LocalSize(n) => match spec_resume_range(n, s.total_bytes) {
                None => {
                    &&& t.safe_name == s.safe_name
                    &&& t.total_bytes == s.total_bytes
                    &&& t.existing_bytes == n
                    &&& t.start == s.start
                    &&& t.end == s.end
                    &&& t.downloaded == s.total_bytes
                    &&& t.stage == DownloadStage::Finished
                    &&& a.progress matches Some(p) && progress_is(
                        p,
                        name,
                        s.total_bytes,
                        s.total_bytes,
                        true,
                        None,
                    )
                    &&& a.next matches NextStep::Finish(Ok(_))
                },
                Some((start, end)) => {
                    &&& t.safe_name == s.safe_name
                    &&& t.total_bytes == s.total_bytes
                    &&& t.existing_bytes == n
                    &&& t.start == start
                    &&& t.end == end
                    &&& t.downloaded == start
                    &&& t.stage == DownloadStage::Requesting
                    &&& a.progress is None
                    &&& a.next matches NextStep::SendRequest { range_header: h } && opt_view(h) == (
                    if start > 0 {
                        Some(range_header_text(start, end))
                    } else {
                        None
                    })
                },
            },
            DownloadEvent::RequestFailed(d) => fails_with(
                s,
                t,
                a,
                s.existing_bytes,
                request_failed_text(name, d@),
            ),
            DownloadEvent::ResponseStatus { success, status } => if success {
                continues(s, t, a, DownloadStage::Opening) && a.next is OpenFile
            } else {
                fails_with(s, t, a, s.existing_bytes, bad_status_text(name, status@))
            },
            DownloadEvent::OpenFailed(d) => fails_with(
                s,
                t,
                a,
                s.existing_bytes,
                open_failed_text(name, d@),
            ),
            DownloadEvent::Opened => continues(s, t, a, DownloadStage::Seeking) && a.next
                == NextStep::SeekTo(s.start),
            DownloadEvent::SeekFailed(d) => fails_with(
                s,
                t,
                a,
                s.existing_bytes,
                seek_failed_text(name, d@),
            ),
            DownloadEvent::Sought => continues(s, t, a, DownloadStage::Streaming) && a.next
                is ReadChunk,
            DownloadEvent::ChunkFailed(d) => fails_with(
                s,
                t,
                a,
                s.downloaded,
                chunk_failed_text(name, d@),
            ),
            DownloadEvent::WriteFailed(d) => fails_with(
                s,
                t,
                a,
                s.downloaded,
                write_failed_text(name, d@),
            ),
            DownloadEvent::ChunkWritten(n) => {
                &&& moved_to(s, t, DownloadStage::Streaming, (s.downloaded + n) as u64)
                &&& a.progress matches Some(p) && progress_is(
                    p,
                    name,
                    (s.downloaded + n) as u64,
                    s.total_bytes,
                    false,
                    None,
                )
                &&& a.next is ReadChunk
            },
            DownloadEvent::StreamEnded => {
                &&& moved_to(s, t, DownloadStage::Finished, s.downloaded)
                &&& a.progress matches Some(p) && progress_is(
                    p,
                    name,
                    s.downloaded,
                    s.total_bytes,
                    true,
                    None,
                )
                &&& a.next matches NextStep::Finish(Ok(_))
            },
        }
    }

    /// A file's download before anything is known about the destination.
    pub fn start(file_name: &str, total_bytes: u64) -> (r: FileDownload)
        ensures
            r.safe_name@ == spec_sanitize_file_name(file_name@),
            r.total_bytes == total_bytes,
            r.existing_bytes == 0,
            r.start == 0,
            r.end == 0,
            r.downloaded == 0,
            r.stage == DownloadStage::SizingLocalFile,
            r.wf(),
    {
        proof {
            lemma_sanitize_is_idempotent(file_name@);
        }
        FileDownload {
            safe_name: sanitize_file_name(file_name),
            total_bytes,
            existing_bytes: 0,
            start: 0,
            end: 0,
            downloaded: 0,
            stage: DownloadStage::SizingLocalFile,
        }
    }

    fn report(&self, bytes: u64, done: bool, error: Option<String>) -> (p: DownloadProgressEvent)
        ensures
            progress_is(p, self.safe_name@, bytes, self.total_bytes, done, opt_view(error)),
    {
        DownloadProgressEvent {
            file_name: self.safe_name.clone(),
            bytes_downloaded: bytes,
            total_bytes: self.total_bytes,
            done,
            error,
        }
    }

    fn fail(&mut self, bytes: u64, message: String) -> (a: DownloadAction)
        ensures
            fails_with(*old(self), *final(self), a, bytes, message@),
    {
        let progress = self.report(bytes, true, Some(message.clone()));
        self.stage = DownloadStage::Finished;
        DownloadAction { progress: Some(progress), next: NextStep::Finish(Err(message)) }
    }

    /// Advances the download by one event from the caller's I/O.
    pub fn step(&mut self, event: DownloadEvent) -> (a: DownloadAction)
        requires
            old(self).accepts(event),
        ensures
            FileDownload::step_spec(*old(self), event, *final(self), a),
    {
        match event {
            DownloadEvent::LocalSize(existing) => {
                self.existing_bytes = existing;
                match compute_resume_range(existing, self.total_bytes) {
                    None => {
                        self.downloaded = self.total_bytes;
                        self.stage = DownloadStage::Finished;
                        let total = self.total_bytes;
                        let progress = self.report(total, true, None);
                        DownloadAction { progress: Some(progress), next: NextStep::Finish(Ok(())) }
                    },
                    Some((start, end)) => {
                        self.start = start;
                        self.end = end;
                        self.downloaded = start;
                        self.stage = DownloadStage::Requesting;
                        let range_header = if start > 0 {
                            let mut h = String::new();
                            push_str(&mut h, "bytes=");
                            push_decimal(&mut h, start);
                            push_str(&mut h, "-");
                            push_decimal(&mut h, end);
                            Some(h)
                        } else {
                            None
                        };
                        DownloadAction { progress: None, next: NextStep::SendRequest { range_header } }
                    },
                }
            },
            DownloadEvent::RequestFailed(detail) => {
                let mut m = String::new();
                push_str(&mut m, "Download failed for ");
                push_str(&mut m, self.safe_name.as_str());
                push_str(&mut m, ": ");
                push_str(&mut m, detail.as_str());
                let bytes = self.existing_bytes;
                self.fail(bytes, m)
            },
            DownloadEvent::ResponseStatus { success, status } => {
                if success {
                    self.stage = DownloadStage::Opening;
                    DownloadAction { progress: None, next: NextStep::OpenFile }
                } else {
                    let mut m = String::new();
                    push_str(&mut m, "Download failed for ");
                    push_str(&mut m, self.safe_name.as_str());
                    push_str(&mut m, ": HTTP ");
                    push_str(&mut m, status.as_str());
                    let bytes = self.existing_bytes;
                    self.fail(bytes, m)
                }
            },
            DownloadEvent::OpenFailed(detail) => {
                let mut m = String::new();
                push_str(&mut m, "Could not open ");
                push_str(&mut m, self.safe_name.as_str());
                push_str(&mut m, " for writing: ");
                push_str(&mut m, detail.as_str());
                let bytes = self.existing_bytes;
                self.fail(bytes, m)
            },
            DownloadEvent::Opened => {
                self.stage = DownloadStage::Seeking;
                DownloadAction { progress: None, next: NextStep::SeekTo(self.start) }
            },
            DownloadEvent::SeekFailed(detail) => {
                let mut m = String::new();
                push_str(&mut m, "Could not seek in ");
                push_str(&mut m, self.safe_name.as_str());
                push_str(&mut m, ": ");
                push_str(&mut m, detail.as_str());
                let bytes = self.existing_bytes;
                self.fail(bytes, m)
            },
            DownloadEvent::Sought => {
                self.stage = DownloadStage::Streaming;
                DownloadAction { progress: None, next: NextStep::ReadChunk }
            },
            DownloadEvent::ChunkFailed(detail) => {
                let mut m = String::new();
                push_str(&mut m, "Connection dropped while downloading ");
                push_str(&mut m, self.safe_name.as_str());
                push_str(&mut m, ": ");
                push_str(&mut m, detail.as_str());
                push_str(&mut m, ". Run the download again to resume.");
                let bytes = self.downloaded;
                self.fail(bytes, m)
            },
            DownloadEvent::WriteFailed(detail) => {
                let mut m = String::new();
                push_str(&mut m, "Could not write ");
                push_str(&mut m, self.safe_name.as_str());
                push_str(&mut m, " to disk: ");
                push_str(&mut m, detail.as_str());
                let bytes = self.downloaded;
                self.fail(bytes, m)
            },
            DownloadEvent::ChunkWritten(len) => {
                self.downloaded = self.downloaded + len;
                let bytes = self.downloaded;
                let progress = self.report(bytes, false, None);
                DownloadAction { progress: Some(progress), next: NextStep::ReadChunk }
            },
            DownloadEvent::StreamEnded => {
                self.stage = DownloadStage::Finished;
                let bytes = self.downloaded;
                let progress = self.report(bytes, true, None);
                DownloadAction { progress: Some(progress), next: NextStep::Finish(Ok(())) }
            },
        }
    }
}

} // verus!

verus! {

/// Every step keeps a well-formed download well-formed.
pub proof fn lemma_step_keeps_wf(s: FileDownload, e: DownloadEvent, t: FileDownload, a: DownloadAction)
    requires
        s.wf(),
        s.accepts(e),
        FileDownload::step_spec(s, e, t, a),
    ensures
        t.wf(),
{
}

/// The byte count of a download never goes down.
pub proof fn lemma_step_never_loses_bytes(s: FileDownload, e: DownloadEvent, t: FileDownload, a: DownloadAction)
    requires
        s.wf(),
        s.accepts(e),
        FileDownload::step_spec(s, e, t, a),
    ensures
        s.downloaded <= t.downloaded,
{
}

/// A download ends exactly when it reaches the finished stage, and its end is always reported:
/// a final progress event with `done` set, carrying the error message exactly when the outcome
/// is that error. Every progress event names the file by its sanitized name.
pub proof fn lemma_every_outcome_is_reported(s: FileDownload, e: DownloadEvent, t: FileDownload, a: DownloadAction)
    requires
        s.wf(),
        s.accepts(e),
        FileDownload::step_spec(s, e, t, a),
    ensures
        (a.next is Finish) <==> (t.stage == DownloadStage::Finished),
        a.next matches NextStep::Finish(outcome) ==> (a.progress matches Some(p) && p.done && (
        match outcome {
            Ok(_) => p.error is None,
            Err(m) => opt_view(p.error) == Some(m@),
        })),
        a.progress matches Some(p) ==> p.file_name@ == s.safe_name@ && spec_sanitize_file_name(
            p.file_name@,
        ) == p.file_name@,
{
}

/// What one step gives, as far as a whole run needs it: the name, total and well-formedness
/// are kept, the byte count does not go down, an event reports the new byte count and is `done`
/// exactly when the step finishes, only a finishing event carries an error, and every finish is
/// reported.
proof fn lemma_step_facts(s: FileDownload, e: DownloadEvent, t: FileDownload, a: DownloadAction)
    requires
        s.wf(),
        s.accepts(e),
        FileDownload::step_spec(s, e, t, a),
    ensures
        t.safe_name == s.safe_name,
        t.total_bytes == s.total_bytes,
        t.wf(),
        s.downloaded <= t.downloaded,
        (a.next is Finish) <==> (t.stage == DownloadStage::Finished),
        t.stage == DownloadStage::Finished ==> a.progress is Some,
        a.progress matches Some(p) ==> {
            &&& p.file_name@ == s.safe_name@
            &&& p.total_bytes == s.total_bytes
            &&& p.bytes_downloaded == t.downloaded
            &&& (p.done <==> t.stage == DownloadStage::Finished)
            &&& (p.error is Some ==> p.done)
        },
{
}

/// The state that `FileDownload::start(name, total)` gives.
pub open spec fn is_fresh_download(s: FileDownload, name: Seq<char>, total: u64) -> bool {
    &&& s.safe_name@ == spec_sanitize_file_name(name)
    &&& s.total_bytes == total
    &&& s.existing_bytes == 0
    &&& s.start == 0
    &&& s.end == 0
    &&& s.downloaded == 0
    &&& s.stage == DownloadStage::SizingLocalFile
}

/// `states[0]` steps through `events`, giving `states[i + 1]` and `actions[i]` at each step.
pub open spec fn is_download_run(
    events: Seq<DownloadEvent>,
    states: Seq<FileDownload>,
    actions: Seq<DownloadAction>,
) -> bool {
    &&& states.len() == events.len() + 1
    &&& actions.len() == events.len()
    &&& forall|i: int|
        0 <= i < events.len() ==> #[trigger] states[i].accepts(events[i])
            && FileDownload::step_spec(states[i], events[i], states[i + 1], actions[i])
}

proof fn lemma_run_states(
    name: Seq<char>,
    total: u64,
    events: Seq<DownloadEvent>,
    states: Seq<FileDownload>,
    actions: Seq<DownloadAction>,
    k: int,
)
    requires
        is_fresh_download(states[0], name, total),
        is_download_run(events, states, actions),
        0 <= k <= events.len(),
    ensures
        forall|i: int|
            0 <= i <= k ==> (#[trigger] states[i]).wf() && states[i].safe_name == states[0].safe_name
                && states[i].total_bytes == total,
        forall|i: int, j: int|
            0 <= i <= j <= k ==> (#[trigger] states[i]).downloaded <= (#[trigger] states[j]).downloaded,
    decreases k,
{
    if k == 0 {
        reveal_strlit("download");
        lemma_sanitize_is_idempotent(name);
    } else {
        lemma_run_states(name, total, events, states, actions, k - 1);
        assert(states[k - 1].accepts(events[k - 1]));
        lemma_step_facts(states[k - 1], events[k - 1], states[k], actions[k - 1]);
        assert forall|i: int, j: int| 0 <= i <= j <= k implies (#[trigger] states[i]).downloaded
            <= (#[trigger] states[j]).downloaded by {
            if j == k && i < k {
                assert(states[i].downloaded <= states[k - 1].downloaded);
            }
        }
    }
}

/// Over a whole download run from `FileDownload::start(name, total)`: every progress event names
/// the file by its sanitized name and reports its total; the reported byte counts never go down;
/// only the last step can finish, and only its event is `done`; only a `done` event carries an
/// error; and a finished run ends with a `done` event that carries exactly the outcome's error.
pub proof fn lemma_download_run(
    name: Seq<char>,
    total: u64,
    events: Seq<DownloadEvent>,
    states: Seq<FileDownload>,
    actions: Seq<DownloadAction>,
)
    requires
        is_fresh_download(states[0], name, total),
        is_download_run(events, states, actions),
    ensures
        forall|i: int|
            0 <= i < actions.len() ==> ((#[trigger] actions[i]).progress matches Some(p) ==> (
            p.file_name@ == spec_sanitize_file_name(name) && p.total_bytes == total)),
        forall|i: int, j: int|
            0 <= i <= j < actions.len() ==> ((#[trigger] actions[i]).progress matches Some(p) ==> (
            (#[trigger] actions[j]).progress matches Some(q) ==> p.bytes_downloaded
                <= q.bytes_downloaded)),
        forall|i: int|
            0 <= i < actions.len() ==> ((#[trigger] actions[i]).progress matches Some(p) ==> ((p.done
                <==> i == actions.len() - 1 && actions[i].next is Finish) && (p.error is Some
                ==> p.done))),
        forall|i: int| 0 <= i < actions.len() - 1 ==> !((#[trigger] actions[i]).next is Finish),
        actions.len() > 0 ==> (actions.last().next matches NextStep::Finish(outcome) ==> (
        actions.last().progress matches Some(p) && p.done && match outcome {
            Ok(_) => p.error is None,
            Err(m) => opt_view(p.error) == Some(m@),
        })),
{
    let n = events.len() as int;
    lemma_run_states(name, total, events, states, actions, n);
    assert forall|i: int| 0 <= i < n implies {
        &&& (#[trigger] actions[i]).progress matches Some(p) ==> {
            &&& p.file_name@ == spec_sanitize_file_name(name)
            &&& p.total_bytes == total
            &&& p.bytes_downloaded == states[i + 1].downloaded
            &&& (p.done <==> i == n - 1 && actions[i].next is Finish)
            &&& (p.error is Some ==> p.done)
        }
        &&& (i < n - 1 ==> !(actions[i].next is Finish))
    } by {
        assert(states[i].accepts(events[i]));
        assert(states[i].wf() && states[i + 1].wf());
        lemma_step_facts(states[i], events[i], states[i + 1], actions[i]);
        lemma_every_outcome_is_reported(states[i], events[i], states[i + 1], actions[i]);
        if i < n - 1 {
            assert(states[i + 1].accepts(events[i + 1]));
        }
    }
    assert forall|i: int, j: int| 0 <= i <= j < n implies ((#[trigger] actions[i]).progress matches Some(
        p,
    ) ==> ((#[trigger] actions[j]).progress matches Some(q) ==> p.bytes_downloaded
        <= q.bytes_downloaded)) by {
        assert(states[i + 1].downloaded <= states[j + 1].downloaded);
    }
    if n > 0 {
        assert(states[n - 1].accepts(events[n - 1]));
        lemma_every_outcome_is_reported(states[n - 1], events[n - 1], states[n], actions[n - 1]);
    }
}

// ---------------------------------------------------------------------------------------------
// A whole job
// ---------------------------------------------------------------------------------------------

/// The first error among the files' outcomes, in manifest order.
pub open spec fn spec_first_error(results: Seq<Result<(), String>>) -> Option<Seq<char>>
    decreases results.len(),
{
    if results.len() == 0 {
        None
    } else {
        match results[0] {
            Err(e) => Some(e@),
            Ok(_) => spec_first_error(results.drop_first()),
        }
    }
}

pub open spec fn task_panicked_text(detail: Seq<char>) -> Seq<char> {
    "Download task panicked: "@ + detail
}

/// The outcome of a file whose download task panicked.
pub fn task_panicked_message(detail: &str) -> (r: String)
    ensures
        r@ == task_panicked_text(detail@),
{
    let mut m = String::new();
    push_str(&mut m, "Download task panicked: ");
    push_str(&mut m, detail);
    m
}

/// The job's outcome from its files' outcomes: the first error, or success when every file
/// succeeded.
pub fn first_error(results: Vec<Result<(), String>>) -> (r: Result<(), String>)
    ensures
        match spec_first_error(results@) {
            Some(m) => r matches Err(e) && e@ == m,
            None => r is Ok,
        },
        r is Ok <==> forall|i: int| 0 <= i < results@.len() ==> #[trigger] results@[i] is Ok,
{
    let ghost all = results@;
    let mut i: usize = 0;
    assert(all.skip(0) =~= all);
    while i < results.len()
        invariant
            i <= results@.len(),
            all == results@,
            spec_first_error(all) == spec_first_error(all.skip(i as int)),
            forall|j: int| 0 <= j < i ==> #[trigger] all[j] is Ok,
        decreases results@.len() - i,
    {
        let ghost rest = all.skip(i as int);
        assert(rest[0] == all[i as int]);
        assert(rest.drop_first() =~= all.skip(i + 1));
        match &results[i] {
            Err(e) => {
                return Err(e.clone());
            },
            Ok(()) => {},
        }
        i = i + 1;
    }
    assert(all.skip(i as int).len() == 0);
    Ok(())
}

} // verus!

verus! {

/// A partial file is resumed from its first missing byte to the last byte of the file; only a
/// file that is already complete (or larger than the total) needs nothing more.
pub proof fn lemma_resume_range_is_the_missing_bytes(existing_bytes: u64, total_bytes: u64)
    ensures
        existing_bytes < total_bytes ==> spec_resume_range(existing_bytes, total_bytes) == Some(
            (existing_bytes, (total_bytes - 1) as u64),
        ),
        (spec_resume_range(existing_bytes, total_bytes) is None) <==> existing_bytes >= total_bytes,
{
}

/// A name is kept whole when it holds no separator, and a path keeps exactly its last
/// component; only when nothing follows the last separator is the name `download`.
pub proof fn lemma_sanitize_keeps_the_last_component(dir: Seq<char>, sep: char, base: Seq<char>)
    requires
        sep == '/' || sep == '\\',
        forall|j: int| 0 <= j < base.len() ==> (#[trigger] base[j]) != '/' && base[j] != '\\',
    ensures
        base.len() > 0 ==> spec_sanitize_file_name(base) == base,
        base.len() > 0 ==> spec_sanitize_file_name(dir + seq![sep] + base) == base,
        base.len() == 0 ==> spec_sanitize_file_name(dir + seq![sep] + base) == "download"@,
        base.len() == 0 ==> spec_sanitize_file_name(base) == "download"@,
{
    lemma_last_path_segment(base, 0);
    assert(base.skip(0) =~= base);
    let s = dir + seq![sep] + base;
    let i: int = (dir.len() + 1) as int;
    assert forall|j: int| i <= j < s.len() implies !is_separator(#[trigger] s[j]) by {
        assert(s[j] == base[j - i]);
    }
    assert(s[i - 1] == sep);
    lemma_last_path_segment(s, i);
    assert(s.skip(i) =~= base);
}

} // verus!
