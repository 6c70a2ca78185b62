//! The download orchestrator's verified core: per-item stream
//! bookkeeping with a clamped progress counter, per-item failure
//! isolation, batch reporting, and the URL and file-name composition.

use vstd::prelude::*;
use crate::response::Beatmap;
use crate::text::decimal_digits;
use crate::text::usize_to_decimal;

verus! {

/// Why one item's download failed.
#[derive(Clone, Copy, PartialEq, Eq, Structural, Debug)]
pub enum DownloadError {
    Network,
    Http(u16),
    Io,
    MissingLength,
}

/// Terminal result for one entry: the clamped byte count on success,
/// or the isolated per-item failure.
#[derive(Clone, Copy, PartialEq, Eq, Structural, Debug)]
pub enum DownloadOutcome {
    Completed(u64),
    Failed(DownloadError),
}

/// One event while a body streams in and its chunks go to storage: a
/// chunk that arrived and was written in full, a chunk that storage
/// refused, or a transport break.
pub enum StreamEvent {
    Chunk(Vec<u8>),
    WriteFailed,
    Interrupted,
}

/// The observable behavior for one item: the declared content
/// length, if the response carried one, and the body events in
/// arrival order.
pub struct ItemStream {
    pub total: Option<u64>,
    pub events: Vec<StreamEvent>,
}

/// Every byte written before the stream ends or first fails.
pub open spec fn received_bytes(events: Seq<StreamEvent>) -> Seq<u8>
    decreases events.len(),
{
    if events.len() == 0 {
        seq![]
    } else {
        match events[0] {
            StreamEvent::Chunk(b) => b@ + received_bytes(events.drop_first()),
            StreamEvent::WriteFailed => seq![],
            StreamEvent::Interrupted => seq![],
        }
    }
}

/// The first failure the stream runs into, if any: a refused write
/// fails the item with `Io`, a transport break with `Network`.
pub open spec fn stream_failure(events: Seq<StreamEvent>) -> Option<DownloadError>
    decreases events.len(),
{
    if events.len() == 0 {
        None
    } else {
        match events[0] {
            StreamEvent::Chunk(_) => stream_failure(events.drop_first()),
            StreamEvent::WriteFailed => Some(DownloadError::Io),
            StreamEvent::Interrupted => Some(DownloadError::Network),
        }
    }
}

/// The progress counter after `received` bytes: clamped so it is
/// never reported above the declared total.
pub open spec fn spec_progress(received: nat, total: u64) -> u64 {
    if received > total {
        total
    } else {
        received as u64
    }
}

/// The outcome owed for one item: a missing content length fails the
/// item (percentage progress would be meaningless), the first refused
/// write or transport break fails it, and anything else completes
/// carrying exactly the bytes written. The clamp of `spec_progress`
/// concerns only the reported progress position, never this payload.
pub open spec fn spec_item_outcome(total: Option<u64>, events: Seq<StreamEvent>) -> DownloadOutcome {
    match total {
        None => DownloadOutcome::Failed(DownloadError::MissingLength),
        Some(t) => match stream_failure(events) {
            Some(e) => DownloadOutcome::Failed(e),
            None => DownloadOutcome::Completed(received_bytes(events).len() as u64),
        },
    }
}

/// What an HTTP status means for one item: a success status lets the
/// body stream; anything else fails the item with that status.
pub open spec fn spec_status_failure(status: u16) -> Option<DownloadError> {
    if 200 <= status < 300 {
        None
    } else {
        Some(DownloadError::Http(status))
    }
}

/// Classifies a response status before any byte is read.
pub fn check_status(status: u16) -> (r: Option<DownloadError>)
    ensures
        r == spec_status_failure(status),
{
    if 200 <= status && status < 300 {
        None
    } else {
        Some(DownloadError::Http(status))
    }
}

/// The bytes that reach storage for one item: nothing when the item
/// is refused for a missing length, else whatever arrived before the
/// end or the break.
pub open spec fn spec_item_bytes(total: Option<u64>, events: Seq<StreamEvent>) -> Seq<u8> {
    match total {
        None => seq![],
        Some(_) => received_bytes(events),
    }
}

/// Byte-accurate progress for one item, clamped to the declared
/// total.
pub struct ProgressTracker {
    pub downloaded: u64,
    pub total: u64,
}

impl ProgressTracker {
    pub open spec fn wf(&self) -> bool {
        self.downloaded <= self.total
    }

    /// Starts at zero bytes of the declared total.
    pub fn new(total: u64) -> (t: ProgressTracker)
        ensures
            t.wf(),
            t.downloaded == 0,
            t.total == total,
    {
        ProgressTracker { downloaded: 0, total }
    }

    /// Advances the counter by one chunk, clamped to the total, and
    /// returns the new position; the counter never moves backwards.
    pub fn on_chunk(&mut self, len: usize) -> (pos: u64)
        requires
            old(self).wf(),
        ensures
            final(self).wf(),
            final(self).total == old(self).total,
            final(self).downloaded == spec_progress(
                (old(self).downloaded + len) as nat,
                old(self).total,
            ),
            pos == final(self).downloaded,
            old(self).downloaded <= final(self).downloaded,
    {
        let add = len as u64;
        let new = if add > self.total - self.downloaded {
            self.total
        } else {
            self.downloaded + add
        };
        self.downloaded = new;
        new
    }
}

/// Processes the whole event stream of one item: its outcome, and
/// every byte that reached storage. The first refused write or
/// transport break yields the matching `Failed` outcome; it never
/// panics and never loses the bytes already written; a `Completed`
/// outcome carries exactly the written byte count.
pub fn process_stream(total: Option<u64>, events: &Vec<StreamEvent>) -> (r: (
    DownloadOutcome,
    Vec<u8>,
))
    ensures
        r.0 == spec_item_outcome(total, events@),
        r.1@ == spec_item_bytes(total, events@),
        r.0 is Completed ==> r.0 == DownloadOutcome::Completed(r.1@.len() as u64),
{
    let t = match total {
        None => {
            return (DownloadOutcome::Failed(DownloadError::MissingLength), Vec::new());
        },
        Some(t) => t,
    };
    let mut data: Vec<u8> = Vec::new();
    let mut i: usize = 0;
    proof {
        assert(events@.skip(0) =~= events@);
    }
    while i < events.len()
        invariant
            i <= events@.len(),
            total == Some(t),
            received_bytes(events@) == data@ + received_bytes(events@.skip(i as int)),
            stream_failure(events@) == stream_failure(events@.skip(i as int)),
        decreases events@.len() - i,
    {
        proof {
            assert(events@.skip(i as int)[0] == events@[i as int]);
            assert(events@.skip(i as int).drop_first() =~= events@.skip(i as int + 1));
        }
        let ev = &events[i];
        match ev {
            StreamEvent::Chunk(b) => {
                data.extend_from_slice(b.as_slice());
            },
            StreamEvent::WriteFailed => {
                proof {
                    assert(events@[i as int] is WriteFailed);
                    assert(received_bytes(events@.skip(i as int)) == Seq::<u8>::empty());
                    assert(stream_failure(events@.skip(i as int)) == Some(DownloadError::Io));
                    assert(data@ + Seq::<u8>::empty() =~= data@);
                }
                return (DownloadOutcome::Failed(DownloadError::Io), data);
            },
            StreamEvent::Interrupted => {
                proof {
                    assert(events@[i as int] is Interrupted);
                    assert(received_bytes(events@.skip(i as int)) == Seq::<u8>::empty());
                    assert(stream_failure(events@.skip(i as int)) == Some(DownloadError::Network));
                    assert(data@ + Seq::<u8>::empty() =~= data@);
                }
                return (DownloadOutcome::Failed(DownloadError::Network), data);
            },
        }
        i = i + 1;
    }
    proof {
        assert(events@.skip(events@.len() as int) =~= Seq::<StreamEvent>::empty());
        assert(data@ + Seq::<u8>::empty() =~= data@);
    }
    let written = data.len() as u64;
    (DownloadOutcome::Completed(written), data)
}

/// How many of the recorded outcomes failed.
pub open spec fn spec_failed_count(s: Seq<(usize, DownloadOutcome)>) -> nat
    decreases s.len(),
{
    if s.len() == 0 {
        0
    } else {
        spec_failed_count(s.drop_last()) + (if s.last().1 is Failed {
            1nat
        } else {
            0nat
        })
    }
}

/// Whether every recorded outcome completed.
pub open spec fn spec_all_completed(s: Seq<(usize, DownloadOutcome)>) -> bool {
    forall|i: int| 0 <= i < s.len() ==> (#[trigger] s[i]).1 is Completed
}

/// Aggregated per-item outcomes of one run: one record per selected
/// entry, never silently dropped.
pub struct BatchReport {
    pub outcomes: Vec<(usize, DownloadOutcome)>,
}

impl BatchReport {
    /// An empty report, before any entry was processed.
    pub fn new() -> (r: BatchReport)
        ensures
            r.outcomes@ == Seq::<(usize, DownloadOutcome)>::empty(),
    {
        BatchReport { outcomes: Vec::new() }
    }

    /// Appends one entry's terminal outcome; nothing already recorded
    /// is touched.
    pub fn record(&mut self, id: usize, outcome: DownloadOutcome)
        ensures
            final(self).outcomes@ == old(self).outcomes@.push((id, outcome)),
    {
        self.outcomes.push((id, outcome));
    }

    /// How many outcomes failed.
    pub fn failed_count(&self) -> (c: usize)
        ensures
            c as nat == spec_failed_count(self.outcomes@),
            c <= self.outcomes@.len(),
    {
        let mut c: usize = 0;
        let mut i: usize = 0;
        proof {
            assert(self.outcomes@.take(0) =~= Seq::<(usize, DownloadOutcome)>::empty());
        }
        while i < self.outcomes.len()
            invariant
                i <= self.outcomes@.len(),
                c <= i,
                c as nat == spec_failed_count(self.outcomes@.take(i as int)),
            decreases self.outcomes@.len() - i,
        {
            proof {
                assert(self.outcomes@.take(i as int + 1).drop_last() =~= self.outcomes@.take(
                    i as int,
                ));
                assert(self.outcomes@.take(i as int + 1).last() == self.outcomes@[i as int]);
            }
            let failed = match self.outcomes[i].1 {
                DownloadOutcome::Failed(_) => true,
                DownloadOutcome::Completed(_) => false,
            };
            if failed {
                c = c + 1;
            }
            i = i + 1;
        }
        proof {
            assert(self.outcomes@.take(self.outcomes@.len() as int) =~= self.outcomes@);
        }
        c
    }

    /// How many outcomes completed.
    pub fn completed_count(&self) -> (c: usize)
        ensures
            c as nat == self.outcomes@.len() - spec_failed_count(self.outcomes@),
    {
        let f = self.failed_count();
        self.outcomes.len() - f
    }

    /// Whether every selected entry completed.
    pub fn all_completed(&self) -> (b: bool)
        ensures
            b == spec_all_completed(self.outcomes@),
    {
        let mut i: usize = 0;
        while i < self.outcomes.len()
            invariant
                i <= self.outcomes@.len(),
                forall|j: int| 0 <= j < i ==> (#[trigger] self.outcomes@[j]).1 is Completed,
            decreases self.outcomes@.len() - i,
        {
            let completed = match self.outcomes[i].1 {
                DownloadOutcome::Completed(_) => true,
                DownloadOutcome::Failed(_) => false,
            };
            if !completed {
                return false;
            }
            i = i + 1;
        }
        true
    }

    /// The process exit code the batch owes: zero exactly when every
    /// selected entry completed.
    pub fn exit_code(&self) -> (c: i32)
        ensures
            (c == 0) <==> spec_all_completed(self.outcomes@),
            c == 0 || c == 1,
    {
        if self.all_completed() {
            0
        } else {
            1
        }
    }
}

/// Runs a whole batch against the given per-item transport
/// behaviors. Every entry gets exactly one outcome, in order — one
/// bad item never stops the rest — and the bytes that reach storage
/// for each item come back alongside the report.
pub fn run_batch(entries: &Vec<Beatmap>, streams: &Vec<ItemStream>) -> (r: (BatchReport, Vec<
    Vec<u8>,
>))
    requires
        entries@.len() == streams@.len(),
    ensures
        r.0.outcomes@.len() == entries@.len(),
        forall|i: int|
            0 <= i < entries@.len() ==> (#[trigger] r.0.outcomes@[i]).0 == entries@[i].id,
        forall|i: int|
            0 <= i < entries@.len() ==> (#[trigger] r.0.outcomes@[i]).1 == spec_item_outcome(
                streams@[i].total,
                streams@[i].events@,
            ),
        r.1@.len() == entries@.len(),
        forall|i: int|
            0 <= i < entries@.len() ==> (#[trigger] r.1@[i])@ == spec_item_bytes(
                streams@[i].total,
                streams@[i].events@,
            ),
        forall|i: int|
            0 <= i < entries@.len() && (#[trigger] r.0.outcomes@[i]).1 is Completed
                ==> r.0.outcomes@[i].1 == DownloadOutcome::Completed(r.1@[i]@.len() as u64),
{
    let mut report = BatchReport::new();
    let mut files: Vec<Vec<u8>> = Vec::new();
    let mut i: usize = 0;
    while i < entries.len()
        invariant
            entries@.len() == streams@.len(),
            i <= entries@.len(),
            report.outcomes@.len() == i,
            files@.len() == i,
            forall|j: int| 0 <= j < i ==> (#[trigger] report.outcomes@[j]).0 == entries@[j].id,
            forall|j: int|
                0 <= j < i ==> (#[trigger] report.outcomes@[j]).1 == spec_item_outcome(
                    streams@[j].total,
                    streams@[j].events@,
                ),
            forall|j: int|
                0 <= j < i ==> (#[trigger] files@[j])@ == spec_item_bytes(
                    streams@[j].total,
                    streams@[j].events@,
                ),
        decreases entries@.len() - i,
    {
        let st = &streams[i];
        let (outcome, data) = process_stream(st.total, &st.events);
        report.record(entries[i].id, outcome);
        files.push(data);
        i = i + 1;
    }
    (report, files)
}

/// The download endpoint for one entry.
pub fn download_url(id: usize) -> (r: String)
    ensures
        r@ == "https://osu.ppy.sh/beatmapsets/"@ + decimal_digits(id as nat) + "/download"@,
{
    let mut r = String::from_str("https://osu.ppy.sh/beatmapsets/");
    let d = usize_to_decimal(id);
    r.append(d.as_str());
    r.append("/download");
    r
}

/// The canonical page for one entry; every download request must
/// carry it as the referer, together with the session credential.
pub fn page_url(id: usize) -> (r: String)
    ensures
        r@ == "https://osu.ppy.sh/beatmapsets/"@ + decimal_digits(id as nat),
{
    let mut r = String::from_str("https://osu.ppy.sh/beatmapsets/");
    let d = usize_to_decimal(id);
    r.append(d.as_str());
    r
}

} // verus!
