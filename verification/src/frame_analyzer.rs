//! The frame analyzer: one backend, chosen by name, loaded once and then
//! applied to every frame.

use vstd::prelude::*;
use crate::ml_backend::{
    AnalysisView, Backend, BackendError, BackendKind, DetectionView, FrameAnalysis,
    FrameImage, MLBackend, bbox_view, create_ml_backend, detections_view, kind_for, lowercase_of,
};

verus! {

/// Runs frames through the backend it owns.
#[derive(Debug)]
pub struct FrameAnalyzer {
    backend: Backend,
}

impl FrameAnalyzer {
    /// Which backend the analyzer owns.
    pub closed spec fn kind(&self) -> BackendKind {
        self.backend.kind()
    }

    /// Whether the backend's model is loaded.
    pub closed spec fn is_loaded(&self) -> bool {
        self.backend.is_loaded()
    }

    /// An analyzer over the backend that `backend_type` names, not loaded
    /// yet. An unrecognised name gives the mock backend.
    pub fn new(backend_type: &str) -> (r: Result<Self, BackendError>)
        ensures
            r matches Ok(analyzer) && analyzer.kind() == kind_for(lowercase_of(backend_type@))
                && !analyzer.is_loaded(),
    {
        match create_ml_backend(backend_type) {
            Ok(backend) => Ok(Self { backend }),
            Err(e) => Err(e),
        }
    }

    /// An analyzer over a fresh backend of the given kind, not loaded yet.
    pub fn with_kind(kind: BackendKind) -> (analyzer: Self)
        ensures
            analyzer.kind() == kind,
            !analyzer.is_loaded(),
    {
        Self { backend: Backend::of_kind(kind) }
    }

    /// Loads the backend's model. Fails only for the ONNX backend without a
    /// path; the analyzer is then left as it was.
    pub fn load_model(&mut self, model_path: Option<&str>) -> (r: Result<(), BackendError>)
        ensures
            final(self).kind() == old(self).kind(),
            r is Ok <==> Backend::load_succeeds(old(self).kind(), model_path is Some),
            r is Ok ==> final(self).is_loaded(),
            r is Err ==> r == Err::<(), BackendError>(BackendError::ModelPathRequired) && *final(self)
                == *old(self),
    {
        self.backend.load_model(model_path)
    }

    /// Detects the objects of one frame. Succeeds exactly when the model is
    /// loaded, with what the backend reports for that frame and timestamp.
    pub fn process_frame(&self, frame: &FrameImage, timestamp: i64) -> (r: Result<
        FrameAnalysis,
        BackendError,
    >)
        ensures
            match r {
                Ok(a) => self.is_loaded() && a@ == Backend::analysis_of(
                    self.kind(),
                    *frame,
                    timestamp,
                ),
                Err(e) => !self.is_loaded() && e == BackendError::ModelNotLoaded,
            },
    {
        self.backend.process_frame(frame, timestamp)
    }

    /// Which backend the analyzer owns.
    pub fn backend_kind(&self) -> (kind: BackendKind)
        ensures
            kind == self.kind(),
    {
        self.backend.backend_kind()
    }

    /// The diagnostic name of the backend.
    pub fn backend_name(&self) -> (name: &str)
        ensures
            name@ == Backend::name_of(self.kind()),
    {
        self.backend.backend_name()
    }
}

/// An analyzer over the mock backend with its model loaded.
pub fn load_model() -> (r: Result<FrameAnalyzer, BackendError>)
    ensures
        r matches Ok(analyzer) && analyzer.kind() == BackendKind::Mock && analyzer.is_loaded(),
{
    let mut analyzer = FrameAnalyzer::with_kind(BackendKind::Mock);
    match analyzer.load_model(None) {
        Ok(()) => Ok(analyzer),
        Err(e) => Err(e),
    }
}

/// Detects the objects of one frame with the given analyzer.
pub fn process_frame(frame: &FrameImage, analyzer: &FrameAnalyzer, timestamp: i64) -> (r: Result<
    FrameAnalysis,
    BackendError,
>)
    ensures
        match r {
            Ok(a) => analyzer.is_loaded() && a@ == Backend::analysis_of(
                analyzer.kind(),
                *frame,
                timestamp,
            ),
            Err(e) => !analyzer.is_loaded() && e == BackendError::ModelNotLoaded,
        },
{
    analyzer.process_frame(frame, timestamp)
}

/// The mathematical content of one `(label, confidence, bbox)` entry.
pub open spec fn object_view(o: (String, u32, [i64; 4])) -> DetectionView {
    DetectionView { label: o.0@, confidence: o.1 as int, bbox: bbox_view(o.2) }
}

/// The views of a list of detected objects, in order.
pub open spec fn objects_view(objects: Seq<(String, u32, [i64; 4])>) -> Seq<DetectionView> {
    Seq::new(objects.len(), |i: int| object_view(objects[i]))
}

/// What a backend found in one frame, in the flat form the synchronizer takes.
#[derive(Debug, Clone)]
pub struct FrameResult {
    pub timestamp: i64,
    pub objects: Vec<(String, u32, [i64; 4])>,
}

/// The mathematical content of a [`FrameResult`].
pub ghost struct FrameView {
    pub timestamp: int,
    pub objects: Seq<DetectionView>,
}

impl View for FrameResult {
    type V = FrameView;

    open spec fn view(&self) -> FrameView {
        FrameView { timestamp: self.timestamp as int, objects: objects_view(self.objects@) }
    }
}

/// The views of a list of frame results, in order.
pub open spec fn frames_view(frames: Seq<FrameResult>) -> Seq<FrameView> {
    Seq::new(frames.len(), |i: int| frames[i]@)
}

/// The frame result that holds what an analysis holds.
pub open spec fn flattened(analysis: AnalysisView) -> FrameView {
    FrameView { timestamp: analysis.timestamp, objects: analysis.detections }
}

impl FrameResult {
    /// The flat form of an analysis: the same timestamp and every detection,
    /// in order.
    pub fn from_analysis(analysis: FrameAnalysis) -> (result: Self)
        ensures
            result@ == flattened(analysis@),
    {
        let timestamp = analysis.timestamp;
        let ghost source = analysis.detections@;
        let mut objects: Vec<(String, u32, [i64; 4])> = Vec::new();
        for d in it: analysis.detections.into_iter()
            invariant
                it.seq() == source,
                objects@.len() == it.index(),
                forall|i: int|
                    0 <= i < it.index() ==> object_view(#[trigger] objects@[i]) == source[i]@,
        {
            objects.push((d.label, d.confidence, d.bbox));
        }
        let result = FrameResult { timestamp, objects };
        assert(result@.objects =~= detections_view(source));
        result
    }
}

} // verus!
