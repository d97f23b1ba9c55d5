//! Batch orchestration: which files are videos, what each asset's outcome
//! is, and how outcomes add up to the batch report.

use vstd::prelude::*;
use vstd::string::*;
use crate::audio_processor::{AudioResult, spans_view};
use crate::file_names::{
    extension, extension_of, file_stem, file_stem_of, names_sorted, names_view, sort_names,
};
use crate::frame_analyzer::{FrameAnalyzer, FrameResult, frames_view};
use crate::ml_backend::{
    Backend, BackendError, BackendKind, FrameImage, error_text, kind_for, lowercase_of,
    to_lowercase,
};
use crate::synchronizer::{
    RecordView, SynchronizedResult, aligned_records, records_view, synchronize_results,
};

verus! {

/// Where a batch reads and writes, and which files it takes for videos.
#[derive(Debug)]
pub struct BatchConfig {
    pub input_dir: String,
    pub output_dir: String,
    /// The extensions of video files, without the dot, in any letter case.
    pub video_extensions: Vec<String>,
    pub max_concurrent: usize,
}

impl Default for BatchConfig {
    /// Reads `input_videos`, writes `output_results`, and takes the six
    /// common container extensions for videos.
    fn default() -> (config: Self)
        ensures
            config.input_dir@ == "input_videos"@,
            config.output_dir@ == "output_results"@,
            names_view(config.video_extensions@) == seq![
                "mp4"@,
                "avi"@,
                "mov"@,
                "mkv"@,
                "wmv"@,
                "flv"@,
            ],
            config.max_concurrent == 4,
    {
        let mut video_extensions: Vec<String> = Vec::new();
        video_extensions.push(String::from_str("mp4"));
        video_extensions.push(String::from_str("avi"));
        video_extensions.push(String::from_str("mov"));
        video_extensions.push(String::from_str("mkv"));
        video_extensions.push(String::from_str("wmv"));
        video_extensions.push(String::from_str("flv"));
        assert(names_view(video_extensions@) =~= seq![
            "mp4"@,
            "avi"@,
            "mov"@,
            "mkv"@,
            "wmv"@,
            "flv"@,
        ]);
        Self {
            input_dir: String::from_str("input_videos"),
            output_dir: String::from_str("output_results"),
            video_extensions,
            max_concurrent: 4,
        }
    }
}

/// One entry of the input directory, as the file system reports it.
#[derive(Debug, Clone)]
pub struct DirEntry {
    /// The entry's name inside the directory.
    pub name: String,
    /// Whether the entry is a regular file.
    pub is_file: bool,
}

/// Why a batch could not run at all.
#[derive(Debug, Clone, Copy, PartialEq, Eq, Structural)]
pub enum BatchError {
    /// The input directory is missing or cannot be read.
    Discovery,
    /// The detection backend could not load its model.
    ModelLoad(BackendError),
}

/// The lower-case forms of a list of texts, in order.
pub open spec fn lowercase_all(texts: Seq<Seq<char>>) -> Seq<Seq<char>> {
    Seq::new(texts.len(), |i: int| lowercase_of(texts[i]))
}

/// Whether `text` is one of `extensions` when letter case is ignored on
/// both sides: some entry has the same lower-case form as `text`.
pub open spec fn listed_ignoring_case(extensions: Seq<Seq<char>>, text: Seq<char>) -> bool {
    exists|k: int|
        0 <= k < extensions.len() && lowercase_of(#[trigger] extensions[k]) == lowercase_of(text)
}

/// Whether a directory entry is a video: a regular file whose extension
/// is one of `extensions`, letter case ignored.
pub open spec fn is_video(entry: DirEntry, extensions: Seq<Seq<char>>) -> bool {
    &&& entry.is_file
    &&& extension_of(entry.name@) matches Some(ext)
    &&& listed_ignoring_case(extensions, ext)
}

/// A text is listed, letter case ignored, exactly when its lower-case form
/// is among the lower-case forms of the list.
pub proof fn lemma_listed_ignoring_case(extensions: Seq<Seq<char>>, text: Seq<char>)
    ensures
        listed_ignoring_case(extensions, text) <==> lowercase_all(extensions).contains(
            lowercase_of(text),
        ),
{
    let lowered = lowercase_all(extensions);
    if listed_ignoring_case(extensions, text) {
        let k = choose|k: int|
            0 <= k < extensions.len() && lowercase_of(#[trigger] extensions[k]) == lowercase_of(
                text,
            );
        assert(lowered[k] == lowercase_of(text));
    }
    if lowered.contains(lowercase_of(text)) {
        let k = choose|k: int| 0 <= k < lowered.len() && lowered[k] == lowercase_of(text);
        assert(lowercase_of(extensions[k]) == lowercase_of(text));
    }
}

/// The names of the videos among `entries`, in directory order.
pub open spec fn video_names(entries: Seq<DirEntry>, extensions: Seq<Seq<char>>) -> Seq<Seq<char>>
    decreases entries.len(),
{
    if entries.len() == 0 {
        Seq::empty()
    } else if is_video(entries.last(), extensions) {
        video_names(entries.drop_last(), extensions).push(entries.last().name@)
    } else {
        video_names(entries.drop_last(), extensions)
    }
}

/// The names of the entries of a directory, in order.
pub open spec fn entry_names(entries: Seq<DirEntry>) -> Seq<Seq<char>> {
    Seq::new(entries.len(), |i: int| entries[i].name@)
}

/// Every video name is the name of an entry, and where no two entries
/// have one name, no two videos have.
pub proof fn lemma_video_names_are_entry_names(entries: Seq<DirEntry>, extensions: Seq<Seq<char>>)
    ensures
        forall|x: Seq<char>|
            video_names(entries, extensions).contains(x) ==> entry_names(entries).contains(x),
        entry_names(entries).no_duplicates() ==> video_names(entries, extensions).no_duplicates(),
    decreases entries.len(),
{
    if entries.len() > 0 {
        let front = entries.drop_last();
        let last = entries.last();
        let names = entry_names(entries);
        let videos = video_names(entries, extensions);
        let before = video_names(front, extensions);
        lemma_video_names_are_entry_names(front, extensions);
        assert forall|k: int| 0 <= k < front.len() implies entry_names(front)[k] == names[k] by {}
        assert forall|x: Seq<char>| videos.contains(x) implies names.contains(x) by {
            let i = choose|i: int| 0 <= i < videos.len() && videos[i] == x;
            if i < before.len() {
                assert(before[i] == x);
                assert(before.contains(x));
                assert(entry_names(front).contains(x));
                let k = choose|k: int|
                    0 <= k < entry_names(front).len() && entry_names(front)[k] == x;
                assert(names[k] == x);
            } else {
                assert(names[entries.len() - 1] == x);
            }
        }
        if names.no_duplicates() {
            assert(entry_names(front).no_duplicates()) by {
                assert forall|a: int, b: int|
                    0 <= a < front.len() && 0 <= b < front.len() && a != b implies entry_names(
                    front,
                )[a] != entry_names(front)[b] by {
                    assert(names[a] != names[b]);
                }
            }
            assert forall|a: int, b: int|
                0 <= a < videos.len() && 0 <= b < videos.len() && a != b implies videos[a]
                != videos[b] by {
                if a < before.len() && b < before.len() {
                    assert(before[a] != before[b]);
                } else {
                    let inner = if a < before.len() {
                        a
                    } else {
                        b
                    };
                    assert(before.contains(before[inner]));
                    assert(entry_names(front).contains(before[inner]));
                    let k = choose|k: int|
                        0 <= k < entry_names(front).len() && entry_names(front)[k] == before[inner];
                    assert(names[k] != names[entries.len() - 1]);
                }
            }
        }
    }
}

/// Whether `text` is one of `items`.
pub fn contains_text(items: &Vec<String>, text: &String) -> (found: bool)
    ensures
        found == names_view(items@).contains(text@),
{
    let ghost view = names_view(items@);
    let mut i: usize = 0;
    while i < items.len()
        invariant
            i <= items.len(),
            view == names_view(items@),
            forall|k: int| 0 <= k < i ==> view[k] != text@,
        decreases items.len() - i,
    {
        assert(view[i as int] == items@[i as int]@);
        if items[i] == *text {
            return true;
        }
        i += 1;
    }
    false
}

/// The terminal record of one asset's processing attempt.
#[derive(Debug)]
pub struct VideoProcessingResult {
    /// The asset's name inside the input directory.
    pub video_path: String,
    /// Elapsed time in millionths of a second.
    pub processing_time: u64,
    pub frame_count: usize,
    pub audio_segments: usize,
    pub synchronized_results: Vec<SynchronizedResult>,
    pub success: bool,
    pub error_message: Option<String>,
}

/// The mathematical content of a [`VideoProcessingResult`].
pub ghost struct OutcomeView {
    pub video_path: Seq<char>,
    pub processing_time: int,
    pub frame_count: int,
    pub audio_segments: int,
    pub records: Seq<RecordView>,
    pub success: bool,
    pub error_message: Option<Seq<char>>,
}

impl View for VideoProcessingResult {
    type V = OutcomeView;

    open spec fn view(&self) -> OutcomeView {
        OutcomeView {
            video_path: self.video_path@,
            processing_time: self.processing_time as int,
            frame_count: self.frame_count as int,
            audio_segments: self.audio_segments as int,
            records: records_view(self.synchronized_results@),
            success: self.success,
            error_message: match self.error_message {
                Some(e) => Some(e@),
                None => None,
            },
        }
    }
}

/// The views of a list of outcomes, in order.
pub open spec fn outcomes_view(outcomes: Seq<VideoProcessingResult>) -> Seq<OutcomeView> {
    Seq::new(outcomes.len(), |i: int| outcomes[i]@)
}

/// The report of a whole batch.
#[derive(Debug)]
pub struct BatchResults {
    pub total_videos: usize,
    pub successful: usize,
    pub failed: usize,
    /// Elapsed time in millionths of a second.
    pub total_processing_time: u64,
    pub results: Vec<VideoProcessingResult>,
}

/// The mathematical content of a [`BatchResults`].
pub ghost struct ReportView {
    pub total_videos: int,
    pub successful: int,
    pub failed: int,
    pub total_processing_time: int,
    pub results: Seq<OutcomeView>,
}

impl View for BatchResults {
    type V = ReportView;

    open spec fn view(&self) -> ReportView {
        ReportView {
            total_videos: self.total_videos as int,
            successful: self.successful as int,
            failed: self.failed as int,
            total_processing_time: self.total_processing_time as int,
            results: outcomes_view(self.results@),
        }
    }
}

/// What the stages before synchronization left for one asset: the frame
/// results and the transcript, or the message of the stage that failed.
#[derive(Debug)]
pub struct AssetRun {
    /// The asset's name inside the input directory.
    pub video_path: String,
    /// Elapsed time in millionths of a second.
    pub processing_time: u64,
    pub analysis: Result<(Vec<FrameResult>, Vec<AudioResult>), String>,
}

/// How many records carry transcript text.
pub open spec fn count_with_text(records: Seq<RecordView>) -> nat
    decreases records.len(),
{
    if records.len() == 0 {
        0
    } else {
        count_with_text(records.drop_last()) + if records.last().audio_text is Some {
            1nat
        } else {
            0nat
        }
    }
}

/// How many outcomes are successes.
pub open spec fn count_successes(outcomes: Seq<OutcomeView>) -> nat
    decreases outcomes.len(),
{
    if outcomes.len() == 0 {
        0
    } else {
        count_successes(outcomes.drop_last()) + if outcomes.last().success {
            1nat
        } else {
            0nat
        }
    }
}

/// The outcome of an asset whose analysis succeeded with these records.
pub open spec fn success_outcome(
    video_path: Seq<char>,
    processing_time: int,
    records: Seq<RecordView>,
) -> OutcomeView {
    OutcomeView {
        video_path,
        processing_time,
        frame_count: records.len() as int,
        audio_segments: count_with_text(records) as int,
        records,
        success: true,
        error_message: None,
    }
}

/// The outcome of an asset whose analysis failed with this message.
pub open spec fn failure_outcome(
    video_path: Seq<char>,
    processing_time: int,
    error: Seq<char>,
) -> OutcomeView {
    OutcomeView {
        video_path,
        processing_time,
        frame_count: 0,
        audio_segments: 0,
        records: Seq::empty(),
        success: false,
        error_message: Some(error),
    }
}

/// The outcome that one asset's run leads to.
pub open spec fn outcome_of(run: AssetRun) -> OutcomeView {
    match run.analysis {
        Ok((frames, spans)) => success_outcome(
            run.video_path@,
            run.processing_time as int,
            aligned_records(frames_view(frames@), spans_view(spans@)),
        ),
        Err(e) => failure_outcome(run.video_path@, run.processing_time as int, e@),
    }
}

/// The outcomes of a list of runs, in order.
pub open spec fn outcomes_of(runs: Seq<AssetRun>) -> Seq<OutcomeView> {
    Seq::new(runs.len(), |i: int| outcome_of(runs[i]))
}

/// The report of a batch with these outcomes.
pub open spec fn report_of(outcomes: Seq<OutcomeView>, total_processing_time: int) -> ReportView {
    ReportView {
        total_videos: outcomes.len() as int,
        successful: count_successes(outcomes) as int,
        failed: outcomes.len() - count_successes(outcomes),
        total_processing_time,
        results: outcomes,
    }
}

impl OutcomeView {
    /// Whether the outcome is one that processing can end in: a success
    /// counts its own records and carries no error, a failure carries an
    /// error and neither records nor counts.
    pub open spec fn well_formed(self) -> bool {
        if self.success {
            &&& self.frame_count == self.records.len()
            &&& self.audio_segments == count_with_text(self.records)
            &&& self.error_message is None
        } else {
            &&& self.frame_count == 0
            &&& self.audio_segments == 0
            &&& self.records.len() == 0
            &&& self.error_message is Some
        }
    }
}

impl ReportView {
    /// Whether the report accounts for its outcomes: it counts them all,
    /// every one as a success or as a failure, and each is well formed.
    pub open spec fn well_formed(self) -> bool {
        &&& self.total_videos == self.results.len()
        &&& self.successful == count_successes(self.results)
        &&& self.successful + self.failed == self.total_videos
        &&& forall|i: int| 0 <= i < self.results.len() ==> (#[trigger] self.results[i]).well_formed()
    }
}

/// Every report of a batch is well formed, however many assets failed.
pub proof fn lemma_reports_are_well_formed(runs: Seq<AssetRun>, total_processing_time: int)
    ensures
        report_of(outcomes_of(runs), total_processing_time).well_formed(),
{
}

/// No more records carry text than there are records.
pub proof fn lemma_count_with_text_bounded(records: Seq<RecordView>)
    ensures
        count_with_text(records) <= records.len(),
    decreases records.len(),
{
    if records.len() > 0 {
        lemma_count_with_text_bounded(records.drop_last());
    }
}

/// No more outcomes are successes than there are outcomes.
pub proof fn lemma_count_successes_bounded(outcomes: Seq<OutcomeView>)
    ensures
        count_successes(outcomes) <= outcomes.len(),
    decreases outcomes.len(),
{
    if outcomes.len() > 0 {
        lemma_count_successes_bounded(outcomes.drop_last());
    }
}

/// A batch over any number of assets reports one outcome per asset, and
/// its successes and failures add up to that number.
pub proof fn lemma_report_accounts_for_every_asset(runs: Seq<AssetRun>, total_processing_time: int)
    ensures
        report_of(outcomes_of(runs), total_processing_time).results.len() == runs.len(),
        report_of(outcomes_of(runs), total_processing_time).total_videos == runs.len(),
        report_of(outcomes_of(runs), total_processing_time).successful >= 0,
        report_of(outcomes_of(runs), total_processing_time).failed >= 0,
        report_of(outcomes_of(runs), total_processing_time).successful + report_of(
            outcomes_of(runs),
            total_processing_time,
        ).failed == runs.len(),
{
    lemma_count_successes_bounded(outcomes_of(runs));
}

/// How many of the records carry transcript text.
pub fn count_audio_segments(records: &Vec<SynchronizedResult>) -> (count: usize)
    ensures
        count == count_with_text(records_view(records@)),
{
    let ghost view = records_view(records@);
    let mut count: usize = 0;
    let mut i: usize = 0;
    while i < records.len()
        invariant
            i <= records.len(),
            view == records_view(records@),
            count == count_with_text(view.take(i as int)),
            count <= i,
        decreases records.len() - i,
    {
        assert(view.take(i + 1).drop_last() =~= view.take(i as int));
        assert(view.take(i + 1).last() == records@[i as int]@);
        if records[i].audio_text.is_some() {
            count += 1;
        }
        i += 1;
    }
    assert(view.take(view.len() as int) =~= view);
    count
}

/// How far one asset has got through the pipeline.
#[derive(Debug, Clone, Copy, PartialEq, Eq, Structural)]
pub enum AssetStage {
    Discovered,
    FramesExtracted,
    Detected,
    AudioExtracted,
    Transcribed,
    Synchronized,
    PersistedSuccess,
    PersistedFailed,
}

impl AssetStage {
    /// Whether the asset is done, as a success or as a failure.
    pub open spec fn is_terminal(self) -> bool {
        self == AssetStage::PersistedSuccess || self == AssetStage::PersistedFailed
    }

    /// The stage after one more step. A step that fails before the records
    /// are synchronized makes the asset a failure. Persisting synchronized
    /// records makes it a success whether or not the document was written.
    /// A finished asset stays as it is.
    pub open spec fn next(self, step_ok: bool) -> AssetStage {
        match self {
            AssetStage::PersistedSuccess => AssetStage::PersistedSuccess,
            AssetStage::PersistedFailed => AssetStage::PersistedFailed,
            AssetStage::Synchronized => AssetStage::PersistedSuccess,
            _ => if !step_ok {
                AssetStage::PersistedFailed
            } else {
                match self {
                    AssetStage::Discovered => AssetStage::FramesExtracted,
                    AssetStage::FramesExtracted => AssetStage::Detected,
                    AssetStage::Detected => AssetStage::AudioExtracted,
                    AssetStage::AudioExtracted => AssetStage::Transcribed,
                    _ => AssetStage::Synchronized,
                }
            },
        }
    }

    /// The stage after a run of steps, taken in order.
    pub open spec fn after(self, steps: Seq<bool>) -> AssetStage
        decreases steps.len(),
    {
        if steps.len() == 0 {
            self
        } else {
            self.next(steps[0]).after(steps.drop_first())
        }
    }

    /// The stage after one more step that succeeded or failed.
    pub fn advance(self, step_ok: bool) -> (stage: AssetStage)
        ensures
            stage == self.next(step_ok),
    {
        match self {
            AssetStage::PersistedSuccess => AssetStage::PersistedSuccess,
            AssetStage::PersistedFailed => AssetStage::PersistedFailed,
            AssetStage::Synchronized => AssetStage::PersistedSuccess,
            AssetStage::Discovered => if step_ok {
                AssetStage::FramesExtracted
            } else {
                AssetStage::PersistedFailed
            },
            AssetStage::FramesExtracted => if step_ok {
                AssetStage::Detected
            } else {
                AssetStage::PersistedFailed
            },
            AssetStage::Detected => if step_ok {
                AssetStage::AudioExtracted
            } else {
                AssetStage::PersistedFailed
            },
            AssetStage::AudioExtracted => if step_ok {
                AssetStage::Transcribed
            } else {
                AssetStage::PersistedFailed
            },
            AssetStage::Transcribed => if step_ok {
                AssetStage::Synchronized
            } else {
                AssetStage::PersistedFailed
            },
        }
    }
}

/// A finished asset stays finished, whatever steps follow.
pub proof fn lemma_terminal_stage_stays(stage: AssetStage, steps: Seq<bool>)
    requires
        stage.is_terminal(),
    ensures
        stage.after(steps) == stage,
    decreases steps.len(),
{
    if steps.len() > 0 {
        lemma_terminal_stage_stays(stage, steps.drop_first());
    }
}

/// Six steps finish a discovered asset: as a success when the first five
/// succeed, as a failure when one of them fails.
pub proof fn lemma_six_steps_finish(steps: Seq<bool>)
    requires
        steps.len() == 6,
    ensures
        AssetStage::Discovered.after(steps) == if steps[0] && steps[1] && steps[2] && steps[3]
            && steps[4] {
            AssetStage::PersistedSuccess
        } else {
            AssetStage::PersistedFailed
        },
{
    reveal_with_fuel(AssetStage::after, 8);
    let s1 = steps.drop_first();
    let s2 = s1.drop_first();
    let s3 = s2.drop_first();
    let s4 = s3.drop_first();
    let s5 = s4.drop_first();
    let s6 = s5.drop_first();
    assert(s1[0] == steps[1] && s2[0] == steps[2] && s3[0] == steps[3] && s4[0] == steps[4]
        && s5[0] == steps[5]);
    assert(s6.len() == 0);
}

/// The stage of the per-asset pipeline that failed, with what it reported.
#[derive(Debug)]
pub enum PipelineFailure {
    FrameExtraction(String),
    FrameProcessing(String),
    AudioExtraction(String),
    Transcription(String),
}

/// The message recorded for a failure: the name of the stage, a colon and
/// the stage's own words. A transcription failure is recorded as it came.
pub open spec fn failure_text(failure: PipelineFailure) -> Seq<char> {
    match failure {
        PipelineFailure::FrameExtraction(e) => "Frame extraction failed: "@ + e@,
        PipelineFailure::FrameProcessing(e) => "Frame processing failed: "@ + e@,
        PipelineFailure::AudioExtraction(e) => "Audio extraction failed: "@ + e@,
        PipelineFailure::Transcription(e) => e@,
    }
}

impl PipelineFailure {
    /// The message recorded on the asset's outcome.
    pub fn message(&self) -> (text: String)
        ensures
            text@ == failure_text(*self),
    {
        match self {
            PipelineFailure::FrameExtraction(e) => String::from_str(
                "Frame extraction failed: ",
            ).concat(e.as_str()),
            PipelineFailure::FrameProcessing(e) => String::from_str(
                "Frame processing failed: ",
            ).concat(e.as_str()),
            PipelineFailure::AudioExtraction(e) => String::from_str(
                "Audio extraction failed: ",
            ).concat(e.as_str()),
            PipelineFailure::Transcription(e) => e.clone(),
        }
    }
}

/// One sampled picture as the detection stage takes it: its timestamp and
/// the size of its stored image.
#[derive(Debug, Clone, Copy)]
pub struct SampledFrame {
    pub timestamp: i64,
    pub image: FrameImage,
}

/// What a loaded backend of the given kind reports for the frames: one
/// result per frame, in order.
pub open spec fn detected_frames(kind: BackendKind, frames: Seq<SampledFrame>) -> Seq<
    crate::frame_analyzer::FrameView,
> {
    Seq::new(
        frames.len(),
        |i: int|
            crate::frame_analyzer::flattened(
                Backend::analysis_of(kind, frames[i].image, frames[i].timestamp),
            ),
    )
}

/// Detection gives one result per frame, each with its frame's timestamp.
pub proof fn lemma_every_picture_is_detected(kind: BackendKind, frames: Seq<SampledFrame>)
    ensures
        detected_frames(kind, frames).len() == frames.len(),
        forall|i: int|
            0 <= i < frames.len() ==> (#[trigger] detected_frames(kind, frames)[i]).timestamp
                == frames[i].timestamp,
{
}

/// An asset that gets through analysis counts every sampled picture as a
/// frame: with one sampled frame per timestamp, it is a success with as
/// many frames and records as there are timestamps, and every record
/// carries the timestamp of its picture.
pub proof fn lemma_frame_count_is_picture_count(
    run: AssetRun,
    kind: BackendKind,
    timestamps: Seq<i64>,
    frames: Seq<SampledFrame>,
)
    requires
        frames.len() == timestamps.len(),
        forall|i: int| 0 <= i < frames.len() ==> (#[trigger] frames[i]).timestamp == timestamps[i],
        run.analysis matches Ok((results, _)) && frames_view(results@) == detected_frames(
            kind,
            frames,
        ),
    ensures
        outcome_of(run).success,
        outcome_of(run).frame_count == timestamps.len(),
        outcome_of(run).records.len() == timestamps.len(),
        forall|i: int|
            0 <= i < timestamps.len() ==> (#[trigger] outcome_of(run).records[i]).timestamp
                == timestamps[i],
{
    lemma_every_picture_is_detected(kind, frames);
    assert forall|i: int| 0 <= i < timestamps.len() implies (#[trigger] outcome_of(
        run,
    ).records[i]).timestamp == timestamps[i] by {
        assert(detected_frames(kind, frames)[i].timestamp == frames[i].timestamp);
    }
}

/// Runs every frame through the analyzer, in order: one result per frame.
///
/// Fails exactly when there is a frame and the analyzer's model is not
/// loaded: the failure is that of frame processing, with the backend's
/// message.
pub fn analyze_frames(analyzer: &FrameAnalyzer, frames: &Vec<SampledFrame>) -> (r: Result<
    Vec<FrameResult>,
    PipelineFailure,
>)
    ensures
        match r {
            Ok(results) => {
                &&& analyzer.is_loaded() || frames@.len() == 0
                &&& frames_view(results@) == detected_frames(analyzer.kind(), frames@)
                &&& results@.len() == frames@.len()
                &&& forall|i: int|
                    0 <= i < frames@.len() ==> (#[trigger] results@[i]).timestamp
                        == frames@[i].timestamp
            },
            Err(failure) => !analyzer.is_loaded() && frames@.len() > 0 && failure_text(failure)
                == "Frame processing failed: "@ + error_text(BackendError::ModelNotLoaded),
        },
{
    let mut results: Vec<FrameResult> = Vec::new();
    let mut i: usize = 0;
    while i < frames.len()
        invariant
            i <= frames.len(),
            results@.len() == i,
            analyzer.is_loaded() || i == 0,
            forall|k: int|
                0 <= k < i ==> (#[trigger] results@[k])@ == crate::frame_analyzer::flattened(
                    Backend::analysis_of(analyzer.kind(), frames@[k].image, frames@[k].timestamp),
                ),
        decreases frames.len() - i,
    {
        let frame = &frames[i];
        match analyzer.process_frame(&frame.image, frame.timestamp) {
            Ok(analysis) => {
                results.push(FrameResult::from_analysis(analysis));
            },
            Err(e) => {
                return Err(PipelineFailure::FrameProcessing(e.message()));
            },
        }
        i += 1;
    }
    assert(frames_view(results@) =~= detected_frames(analyzer.kind(), frames@));
    assert forall|k: int| 0 <= k < frames@.len() implies (#[trigger] results@[k]).timestamp
        == frames@[k].timestamp by {
        assert(results@[k]@.timestamp == frames@[k].timestamp);
    }
    Ok(results)
}

/// Whether the stem of asset `i` can name its output directory without
/// meeting another asset: no other asset has that stem, and no other asset
/// is named like it.
pub open spec fn stem_is_exclusive(names: Seq<Seq<char>>, i: int) -> bool {
    forall|j: int|
        0 <= j < names.len() && j != i ==> file_stem_of(#[trigger] names[j]) != file_stem_of(
            names[i],
        ) && names[j] != file_stem_of(names[i])
}

/// The name of the output directory of asset `i`: its file stem where
/// that is exclusive, else its whole file name.
pub open spec fn output_name(names: Seq<Seq<char>>, i: int) -> Seq<char> {
    if stem_is_exclusive(names, i) {
        file_stem_of(names[i])
    } else {
        names[i]
    }
}

/// The names of the output directories of a batch of assets, in order.
pub open spec fn output_names(names: Seq<Seq<char>>) -> Seq<Seq<char>> {
    Seq::new(names.len(), |i: int| output_name(names, i))
}

/// Assets with different names never share an output directory.
pub proof fn lemma_output_names_distinct(names: Seq<Seq<char>>)
    requires
        names.no_duplicates(),
    ensures
        output_names(names).len() == names.len(),
        output_names(names).no_duplicates(),
{
    let out = output_names(names);
    assert forall|i: int, j: int| 0 <= i < out.len() && 0 <= j < out.len() && i != j implies out[i]
        != out[j] by {
        assert(names[i] != names[j]);
        if stem_is_exclusive(names, i) {
            assert(file_stem_of(names[j]) != file_stem_of(names[i]) && names[j] != file_stem_of(
                names[i],
            ));
        } else if stem_is_exclusive(names, j) {
            assert(file_stem_of(names[i]) != file_stem_of(names[j]) && names[i] != file_stem_of(
                names[j],
            ));
        }
    }
}

/// Whether the stem of asset `i` is exclusive among the assets.
fn has_exclusive_stem(files: &Vec<String>, stems: &Vec<String>, i: usize) -> (exclusive: bool)
    requires
        i < files@.len(),
        stems@.len() == files@.len(),
        forall|k: int| 0 <= k < files@.len() ==> (#[trigger] stems@[k])@ == file_stem_of(files@[k]@),
    ensures
        exclusive == stem_is_exclusive(names_view(files@), i as int),
{
    let ghost names = names_view(files@);
    let mut j: usize = 0;
    while j < files.len()
        invariant
            j <= files.len(),
            i < files@.len(),
            stems@.len() == files@.len(),
            names == names_view(files@),
            forall|k: int|
                0 <= k < files@.len() ==> (#[trigger] stems@[k])@ == file_stem_of(files@[k]@),
            forall|k: int|
                0 <= k < j && k != i ==> file_stem_of(#[trigger] names[k]) != file_stem_of(
                    names[i as int],
                ) && names[k] != file_stem_of(names[i as int]),
        decreases files.len() - j,
    {
        assert(names[j as int] == files@[j as int]@);
        assert(names[i as int] == files@[i as int]@);
        if j != i && (stems[j] == stems[i] || files[j] == stems[i]) {
            return false;
        }
        j += 1;
    }
    true
}

/// The name of the output directory of every asset of a batch, in order:
/// the asset's file stem where that is exclusive, else its whole name.
/// Assets with different names get different directories.
pub fn output_directories(files: &Vec<String>) -> (directories: Vec<String>)
    ensures
        names_view(directories@) == output_names(names_view(files@)),
        directories@.len() == files@.len(),
        names_view(files@).no_duplicates() ==> names_view(directories@).no_duplicates(),
{
    let ghost names = names_view(files@);
    let mut stems: Vec<String> = Vec::new();
    let mut k: usize = 0;
    while k < files.len()
        invariant
            k <= files.len(),
            stems@.len() == k,
            forall|m: int| 0 <= m < k ==> (#[trigger] stems@[m])@ == file_stem_of(files@[m]@),
        decreases files.len() - k,
    {
        stems.push(file_stem(files[k].as_str()));
        k += 1;
    }
    let mut directories: Vec<String> = Vec::new();
    let mut i: usize = 0;
    while i < files.len()
        invariant
            i <= files.len(),
            stems@.len() == files@.len(),
            names == names_view(files@),
            forall|m: int|
                0 <= m < files@.len() ==> (#[trigger] stems@[m])@ == file_stem_of(files@[m]@),
            directories@.len() == i,
            forall|m: int| 0 <= m < i ==> (#[trigger] directories@[m])@ == output_name(names, m),
        decreases files.len() - i,
    {
        assert(names[i as int] == files@[i as int]@);
        if has_exclusive_stem(files, &stems, i) {
            directories.push(stems[i].clone());
        } else {
            directories.push(files[i].clone());
        }
        i += 1;
    }
    assert(names_view(directories@) =~= output_names(names));
    proof {
        if names.no_duplicates() {
            lemma_output_names_distinct(names);
        }
    }
    directories
}

/// The lower-case form of every text of a list, in order.
pub fn to_lowercase_all(texts: &Vec<String>) -> (lowered: Vec<String>)
    ensures
        names_view(lowered@) == lowercase_all(names_view(texts@)),
{
    let mut lowered: Vec<String> = Vec::new();
    let mut i: usize = 0;
    while i < texts.len()
        invariant
            i <= texts.len(),
            lowered@.len() == i,
            forall|k: int| 0 <= k < i ==> (#[trigger] lowered@[k])@ == lowercase_of(texts@[k]@),
        decreases texts.len() - i,
    {
        lowered.push(to_lowercase(texts[i].as_str()));
        i += 1;
    }
    assert(names_view(lowered@) =~= lowercase_all(names_view(texts@)));
    lowered
}

/// Whether `text` is one of `extensions`, letter case ignored on both sides.
pub fn contains_ignoring_case(extensions: &Vec<String>, text: &str) -> (found: bool)
    ensures
        found == listed_ignoring_case(names_view(extensions@), text@),
{
    proof {
        lemma_listed_ignoring_case(names_view(extensions@), text@);
    }
    let lowered_list = to_lowercase_all(extensions);
    let lowered = to_lowercase(text);
    contains_text(&lowered_list, &lowered)
}

/// Drives the analysis of every video of a directory.
#[derive(Debug)]
pub struct BatchProcessor {
    config: BatchConfig,
}

impl BatchProcessor {
    /// The configuration the processor was made with.
    pub closed spec fn config(&self) -> BatchConfig {
        self.config
    }

    /// A processor for the given configuration.
    pub fn new(config: BatchConfig) -> (processor: Self)
        ensures
            processor.config() == config,
    {
        Self { config }
    }

    /// Whether a directory entry is a video under this configuration.
    pub fn is_video_entry(&self, entry: &DirEntry) -> (video: bool)
        ensures
            video == is_video(*entry, names_view(self.config().video_extensions@)),
    {
        if !entry.is_file {
            return false;
        }
        match extension(entry.name.as_str()) {
            Some(ext) => contains_ignoring_case(&self.config.video_extensions, ext.as_str()),
            None => false,
        }
    }

    /// The videos of the input directory, in ascending order of name. In
    /// a listing without a name twice, no video is listed twice.
    ///
    /// `listing` holds the entries directly under the input directory, or
    /// nothing where the directory is missing or cannot be read: that is
    /// the only failure, `Discovery`.
    pub fn find_video_files(&self, listing: Option<&Vec<DirEntry>>) -> (r: Result<
        Vec<String>,
        BatchError,
    >)
        ensures
            match (listing, r) {
                (Some(entries), Ok(files)) => {
                    &&& names_sorted(names_view(files@))
                    &&& names_view(files@).to_multiset() == video_names(
                        entries@,
                        names_view(self.config().video_extensions@),
                    ).to_multiset()
                    &&& entry_names(entries@).no_duplicates() ==> names_view(
                        files@,
                    ).no_duplicates()
                },
                (None, Err(e)) => e == BatchError::Discovery,
                _ => false,
            },
    {
        match listing {
            None => Err(BatchError::Discovery),
            Some(entries) => {
                let ghost extensions = names_view(self.config.video_extensions@);
                let mut video_files: Vec<String> = Vec::new();
                let mut i: usize = 0;
                while i < entries.len()
                    invariant
                        i <= entries.len(),
                        extensions == names_view(self.config().video_extensions@),
                        names_view(video_files@) == video_names(entries@.take(i as int), extensions),
                    decreases entries.len() - i,
                {
                    let entry = &entries[i];
                    assert(entries@.take(i + 1).drop_last() =~= entries@.take(i as int));
                    assert(entries@.take(i + 1).last() == *entry);
                    if self.is_video_entry(entry) {
                        video_files.push(entry.name.clone());
                        assert(names_view(video_files@) =~= video_names(
                            entries@.take(i as int),
                            extensions,
                        ).push(entry.name@));
                    }
                    i += 1;
                }
                assert(entries@.take(entries@.len() as int) =~= entries@);
                let files = sort_names(video_files);
                proof {
                    let videos = video_names(entries@, extensions);
                    lemma_video_names_are_entry_names(entries@, extensions);
                    if entry_names(entries@).no_duplicates() {
                        videos.lemma_multiset_has_no_duplicates();
                        names_view(files@).lemma_multiset_has_no_duplicates_conv();
                    }
                }
                Ok(files)
            },
        }
    }

    /// The analyzer a batch over `file_count` videos works with: none for
    /// an empty batch, else the backend that `backend_name` names, with its
    /// model loaded. A model that does not load ends the batch.
    pub fn prepare_analyzer(
        &self,
        file_count: usize,
        backend_name: &str,
        model_path: Option<&str>,
    ) -> (r: Result<Option<FrameAnalyzer>, BatchError>)
        ensures
            match r {
                Ok(None) => file_count == 0,
                Ok(Some(analyzer)) => {
                    &&& file_count > 0
                    &&& analyzer.kind() == kind_for(lowercase_of(backend_name@))
                    &&& analyzer.is_loaded()
                    &&& Backend::load_succeeds(analyzer.kind(), model_path is Some)
                },
                Err(e) => {
                    &&& file_count > 0
                    &&& !Backend::load_succeeds(
                        kind_for(lowercase_of(backend_name@)),
                        model_path is Some,
                    )
                    &&& e == BatchError::ModelLoad(BackendError::ModelPathRequired)
                },
            },
    {
        if file_count == 0 {
            return Ok(None);
        }
        match FrameAnalyzer::new(backend_name) {
            Ok(mut analyzer) => match analyzer.load_model(model_path) {
                Ok(()) => Ok(Some(analyzer)),
                Err(e) => Err(BatchError::ModelLoad(e)),
            },
            Err(e) => Err(BatchError::ModelLoad(e)),
        }
    }

    /// The outcome of one asset. A run that got through analysis is
    /// synchronized and counted and is a success; a run that failed becomes
    /// a failure that carries the message.
    pub fn process_single_video(&self, run: AssetRun) -> (outcome: VideoProcessingResult)
        ensures
            outcome@ == outcome_of(run),
            outcome@.well_formed(),
    {
        match run.analysis {
            Ok((frame_results, audio_results)) => {
                let synchronized_results = synchronize_results(frame_results, audio_results);
                let frame_count = synchronized_results.len();
                let audio_segments = count_audio_segments(&synchronized_results);
                VideoProcessingResult {
                    video_path: run.video_path,
                    processing_time: run.processing_time,
                    frame_count,
                    audio_segments,
                    synchronized_results,
                    success: true,
                    error_message: None,
                }
            },
            Err(e) => {
                let outcome = VideoProcessingResult {
                    video_path: run.video_path,
                    processing_time: run.processing_time,
                    frame_count: 0,
                    audio_segments: 0,
                    synchronized_results: Vec::new(),
                    success: false,
                    error_message: Some(e),
                };
                assert(outcome@.records =~= Seq::empty());
                outcome
            },
        }
    }

    /// The report of a batch: one outcome per run, in order, with the
    /// successes and failures counted. A failed run never ends the batch.
    pub fn process_batch(&self, runs: Vec<AssetRun>, total_processing_time: u64) -> (report:
        BatchResults)
        ensures
            report@ == report_of(outcomes_of(runs@), total_processing_time as int),
            report@.well_formed(),
            report.results@.len() == runs@.len(),
            report.total_videos == runs@.len(),
            report.successful + report.failed == report.total_videos,
    {
        let ghost expected = outcomes_of(runs@);
        let count: usize = runs.len();
        let mut results: Vec<VideoProcessingResult> = Vec::new();
        let mut successful: usize = 0;
        let mut failed: usize = 0;
        for run in it: runs.into_iter()
            invariant
                expected == outcomes_of(it.seq()),
                it.seq().len() == count,
                outcomes_view(results@) == expected.take(it.index() as int),
                successful == count_successes(expected.take(it.index() as int)),
                successful + failed == it.index(),
        {
            let ghost i = it.index() as int;
            let ghost before = outcomes_view(results@);
            let outcome = self.process_single_video(run);
            assert(expected.take(i + 1).drop_last() =~= expected.take(i));
            assert(expected.take(i + 1).last() == outcome@);
            if outcome.success {
                successful += 1;
            } else {
                failed += 1;
            }
            results.push(outcome);
            assert(outcomes_view(results@) =~= before.push(outcome@));
            assert(outcomes_view(results@) =~= expected.take(i + 1));
        }
        assert(expected.take(expected.len() as int) =~= expected);
        proof {
            lemma_reports_are_well_formed(runs@, total_processing_time as int);
        }
        BatchResults {
            total_videos: results.len(),
            successful,
            failed,
            total_processing_time,
            results,
        }
    }
}

} // verus!
