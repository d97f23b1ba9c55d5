//! Detection backends: the capability every backend offers, the backends
//! themselves, and the choice of one by name.

use vstd::prelude::*;
use vstd::string::*;
use crate::text::{decimal, push_char, push_decimal};

verus! {

/// One confidence unit: confidences run from 0 to this value.
pub const CONFIDENCE_ONE: u32 = 1_000_000;

/// One labelled, scored, axis-aligned box found in a frame.
#[derive(Debug, Clone)]
pub struct DetectionResult {
    pub label: String,
    /// In millionths, between 0 and [`CONFIDENCE_ONE`].
    pub confidence: u32,
    /// `[x1, y1, x2, y2]` in millionths of a source-image pixel.
    pub bbox: [i64; 4],
}

/// The mathematical content of a detection.
pub ghost struct DetectionView {
    pub label: Seq<char>,
    pub confidence: int,
    pub bbox: Seq<int>,
}

/// The four corners of a box as integers.
pub open spec fn bbox_view(bbox: [i64; 4]) -> Seq<int> {
    Seq::new(4, |k: int| bbox@[k] as int)
}

impl View for DetectionResult {
    type V = DetectionView;

    open spec fn view(&self) -> DetectionView {
        DetectionView {
            label: self.label@,
            confidence: self.confidence as int,
            bbox: bbox_view(self.bbox),
        }
    }
}

/// The views of a list of detections, in order.
pub open spec fn detections_view(detections: Seq<DetectionResult>) -> Seq<DetectionView> {
    Seq::new(detections.len(), |i: int| detections[i]@)
}

/// What a backend reports for one frame.
#[derive(Debug, Clone)]
pub struct FrameAnalysis {
    pub timestamp: i64,
    pub detections: Vec<DetectionResult>,
}

/// The mathematical content of a [`FrameAnalysis`].
pub ghost struct AnalysisView {
    pub timestamp: int,
    pub detections: Seq<DetectionView>,
}

impl View for FrameAnalysis {
    type V = AnalysisView;

    open spec fn view(&self) -> AnalysisView {
        AnalysisView {
            timestamp: self.timestamp as int,
            detections: detections_view(self.detections@),
        }
    }
}

/// What a backend reads of a decoded frame: its size in pixels.
#[derive(Debug, Clone, Copy, PartialEq, Eq, Structural)]
pub struct FrameImage {
    pub width: u32,
    pub height: u32,
}

/// Why a backend refused a call.
#[derive(Debug, Clone, Copy, PartialEq, Eq, Structural)]
pub enum BackendError {
    /// The backend cannot load without a model path.
    ModelPathRequired,
    /// A frame was handed to a backend that has not loaded its model.
    ModelNotLoaded,
}

/// The message of an error, as text.
pub open spec fn error_text(e: BackendError) -> Seq<char> {
    match e {
        BackendError::ModelPathRequired => "ONNX model path required"@,
        BackendError::ModelNotLoaded => "Model not loaded"@,
    }
}

impl BackendError {
    /// The message of this error.
    pub fn message(&self) -> (text: String)
        ensures
            text@ == error_text(*self),
    {
        match self {
            BackendError::ModelPathRequired => String::from_str("ONNX model path required"),
            BackendError::ModelNotLoaded => String::from_str("Model not loaded"),
        }
    }
}

/// Every confidence of the analysis lies between 0 and 1.
pub open spec fn confidences_in_range(a: AnalysisView) -> bool {
    forall|i: int|
        0 <= i < a.detections.len() ==> 0 <= (#[trigger] a.detections[i]).confidence
            <= CONFIDENCE_ONE
}

/// The capability of turning one frame into detections.
pub trait MLBackend: Sized {
    /// Whether the model is loaded, so that frames can be processed.
    spec fn is_loaded(&self) -> bool;

    /// Loads the model. On success the backend is ready for frames; on
    /// failure it is left as it was.
    fn load_model(&mut self, model_path: Option<&str>) -> (r: Result<(), BackendError>)
        ensures
            r is Ok ==> final(self).is_loaded(),
            r is Err ==> *final(self) == *old(self),
    ;

    /// Detects the objects of one frame. Succeeds exactly when the model is
    /// loaded; the analysis carries the given timestamp.
    fn process_frame(&self, frame: &FrameImage, timestamp: i64) -> (r: Result<
        FrameAnalysis,
        BackendError,
    >)
        ensures
            r is Ok <==> self.is_loaded(),
            r matches Ok(a) ==> a@.timestamp == timestamp && confidences_in_range(a@),
            r matches Err(e) ==> e == BackendError::ModelNotLoaded,
    ;

    /// The name that the backend goes by.
    spec fn name_text(&self) -> Seq<char>;

    /// A name for diagnostics.
    fn backend_name(&self) -> (name: &'static str)
        ensures
            name@ == self.name_text(),
    ;
}

/// The label `prefix` followed by the frame size as `WIDTHxHEIGHT`.
pub open spec fn sized_label(prefix: Seq<char>, frame: FrameImage) -> Seq<char> {
    prefix + decimal(frame.width as nat) + seq!['x'] + decimal(frame.height as nat)
}

/// A single detection as a view.
pub open spec fn detection(label: Seq<char>, confidence: int, bbox: Seq<int>) -> DetectionView {
    DetectionView { label, confidence, bbox }
}

/// Builds the label `prefix` followed by `WIDTHxHEIGHT`.
fn make_sized_label(prefix: &str, frame: &FrameImage) -> (label: String)
    ensures
        label@ == sized_label(prefix@, *frame),
{
    let mut label = String::from_str(prefix);
    push_decimal(&mut label, frame.width as u64);
    push_char(&mut label, 'x');
    push_decimal(&mut label, frame.height as u64);
    assert(label@ =~= sized_label(prefix@, *frame));
    label
}

/// An analysis that holds one detection.
fn single_detection(timestamp: i64, label: String, confidence: u32, bbox: [i64; 4]) -> (a:
    FrameAnalysis)
    ensures
        a@ == (AnalysisView {
            timestamp: timestamp as int,
            detections: seq![detection(label@, confidence as int, bbox_view(bbox))],
        }),
{
    let mut detections: Vec<DetectionResult> = Vec::new();
    detections.push(DetectionResult { label, confidence, bbox });
    let a = FrameAnalysis { timestamp, detections };
    assert(a@.detections =~= seq![detection(label@, confidence as int, bbox_view(bbox))]);
    a
}

/// What the mock backend reports for any frame.
pub open spec fn mock_analysis(timestamp: i64) -> AnalysisView {
    AnalysisView {
        timestamp: timestamp as int,
        detections: seq![
            detection(
                "mock_object"@,
                950_000,
                seq![100_000_000, 100_000_000, 200_000_000, 200_000_000],
            ),
        ],
    }
}

/// What the ONNX backend reports for a frame of the given size.
pub open spec fn onnx_analysis(frame: FrameImage, timestamp: i64) -> AnalysisView {
    AnalysisView {
        timestamp: timestamp as int,
        detections: seq![
            detection(
                sized_label("onnx_detection_"@, frame),
                880_000,
                seq![90_000_000, 60_000_000, 190_000_000, 160_000_000],
            ),
        ],
    }
}

/// What the Candle backend reports for a frame of the given size.
pub open spec fn candle_analysis(frame: FrameImage, timestamp: i64) -> AnalysisView {
    AnalysisView {
        timestamp: timestamp as int,
        detections: seq![
            detection(
                sized_label("candle_object_"@, frame),
                910_000,
                seq![80_000_000, 50_000_000, 180_000_000, 150_000_000],
            ),
        ],
    }
}

/// A backend that reports the same detection for every frame.
#[derive(Debug)]
pub struct MockMLBackend {
    pub model_loaded: bool,
}

impl MockMLBackend {
    /// A mock backend whose model is not loaded yet.
    pub fn new() -> (backend: Self)
        ensures
            !backend.model_loaded,
    {
        Self { model_loaded: false }
    }
}

impl MLBackend for MockMLBackend {
    open spec fn is_loaded(&self) -> bool {
        self.model_loaded
    }

    open spec fn name_text(&self) -> Seq<char> {
        "Mock ML Backend"@
    }

    /// Always succeeds, with or without a path.
    fn load_model(&mut self, model_path: Option<&str>) -> (r: Result<(), BackendError>)
        ensures
            r is Ok,
            final(self).model_loaded,
    {
        self.model_loaded = true;
        Ok(())
    }

    fn process_frame(&self, frame: &FrameImage, timestamp: i64) -> (r: Result<
        FrameAnalysis,
        BackendError,
    >)
        ensures
            r matches Ok(a) ==> a@ == mock_analysis(timestamp),
    {
        if !self.model_loaded {
            return Err(BackendError::ModelNotLoaded);
        }
        let bbox: [i64; 4] = [100_000_000, 100_000_000, 200_000_000, 200_000_000];
        let a = single_detection(timestamp, String::from_str("mock_object"), 950_000, bbox);
        assert(bbox_view(bbox) =~= seq![100_000_000, 100_000_000, 200_000_000, 200_000_000]);
        Ok(a)
    }

    fn backend_name(&self) -> (name: &'static str) {
        "Mock ML Backend"
    }
}

/// The backend for ONNX models. The inference session itself lives with the
/// caller; the backend keeps the path of the model it was opened from.
#[derive(Debug)]
pub struct ONNXBackend {
    pub session: Option<String>,
}

impl ONNXBackend {
    /// A backend without a session.
    pub fn new() -> (backend: Self)
        ensures
            backend.session is None,
    {
        Self { session: None }
    }
}

impl MLBackend for ONNXBackend {
    open spec fn is_loaded(&self) -> bool {
        self.session is Some
    }

    open spec fn name_text(&self) -> Seq<char> {
        "ONNX Runtime Backend"@
    }

    /// Needs a model path: without one it fails with `ModelPathRequired`.
    fn load_model(&mut self, model_path: Option<&str>) -> (r: Result<(), BackendError>)
        ensures
            match model_path {
                Some(path) => r is Ok && (final(self).session matches Some(p) && p@ == path@),
                None => r == Err::<(), BackendError>(BackendError::ModelPathRequired),
            },
    {
        match model_path {
            Some(path) => {
                self.session = Some(String::from_str(path));
                Ok(())
            },
            None => Err(BackendError::ModelPathRequired),
        }
    }

    fn process_frame(&self, frame: &FrameImage, timestamp: i64) -> (r: Result<
        FrameAnalysis,
        BackendError,
    >)
        ensures
            r matches Ok(a) ==> a@ == onnx_analysis(*frame, timestamp),
    {
        if self.session.is_none() {
            return Err(BackendError::ModelNotLoaded);
        }
        let bbox: [i64; 4] = [90_000_000, 60_000_000, 190_000_000, 160_000_000];
        let label = make_sized_label("onnx_detection_", frame);
        let a = single_detection(timestamp, label, 880_000, bbox);
        assert(bbox_view(bbox) =~= seq![90_000_000, 60_000_000, 190_000_000, 160_000_000]);
        Ok(a)
    }

    fn backend_name(&self) -> (name: &'static str) {
        "ONNX Runtime Backend"
    }
}

/// The backend for Candle models.
#[derive(Debug)]
pub struct CandleBackend {
    pub model_loaded: bool,
}

impl CandleBackend {
    /// A backend whose model is not loaded yet.
    pub fn new() -> (backend: Self)
        ensures
            !backend.model_loaded,
    {
        Self { model_loaded: false }
    }
}

impl MLBackend for CandleBackend {
    open spec fn is_loaded(&self) -> bool {
        self.model_loaded
    }

    open spec fn name_text(&self) -> Seq<char> {
        "Candle ML Backend"@
    }

    /// Always succeeds: without a path the default configuration is used.
    fn load_model(&mut self, model_path: Option<&str>) -> (r: Result<(), BackendError>)
        ensures
            r is Ok,
            final(self).model_loaded,
    {
        self.model_loaded = true;
        Ok(())
    }

    fn process_frame(&self, frame: &FrameImage, timestamp: i64) -> (r: Result<
        FrameAnalysis,
        BackendError,
    >)
        ensures
            r matches Ok(a) ==> a@ == candle_analysis(*frame, timestamp),
    {
        if !self.model_loaded {
            return Err(BackendError::ModelNotLoaded);
        }
        let bbox: [i64; 4] = [80_000_000, 50_000_000, 180_000_000, 150_000_000];
        let label = make_sized_label("candle_object_", frame);
        let a = single_detection(timestamp, label, 910_000, bbox);
        assert(bbox_view(bbox) =~= seq![80_000_000, 50_000_000, 180_000_000, 150_000_000]);
        Ok(a)
    }

    fn backend_name(&self) -> (name: &'static str) {
        "Candle ML Backend"
    }
}

/// The backends that can be chosen by name.
#[derive(Debug, Clone, Copy, PartialEq, Eq, Structural)]
pub enum BackendKind {
    Mock,
    Onnx,
    Candle,
}

/// Any one of the backends, so that callers never branch on which it is.
#[derive(Debug)]
pub enum Backend {
    Mock(MockMLBackend),
    Onnx(ONNXBackend),
    Candle(CandleBackend),
}

impl Backend {
    /// Which backend this is.
    pub open spec fn kind(&self) -> BackendKind {
        match self {
            Backend::Mock(_) => BackendKind::Mock,
            Backend::Onnx(_) => BackendKind::Onnx,
            Backend::Candle(_) => BackendKind::Candle,
        }
    }

    /// What a loaded backend of this kind reports for a frame.
    pub open spec fn analysis_of(kind: BackendKind, frame: FrameImage, timestamp: i64) -> AnalysisView {
        match kind {
            BackendKind::Mock => mock_analysis(timestamp),
            BackendKind::Onnx => onnx_analysis(frame, timestamp),
            BackendKind::Candle => candle_analysis(frame, timestamp),
        }
    }

    /// Whether loading a backend of this kind succeeds with the given path.
    pub open spec fn load_succeeds(kind: BackendKind, has_path: bool) -> bool {
        kind != BackendKind::Onnx || has_path
    }

    /// The diagnostic name of a backend of this kind.
    pub open spec fn name_of(kind: BackendKind) -> Seq<char> {
        match kind {
            BackendKind::Mock => "Mock ML Backend"@,
            BackendKind::Onnx => "ONNX Runtime Backend"@,
            BackendKind::Candle => "Candle ML Backend"@,
        }
    }

    /// Which backend this is.
    pub fn backend_kind(&self) -> (kind: BackendKind)
        ensures
            kind == self.kind(),
    {
        match self {
            Backend::Mock(_) => BackendKind::Mock,
            Backend::Onnx(_) => BackendKind::Onnx,
            Backend::Candle(_) => BackendKind::Candle,
        }
    }

    /// A fresh, unloaded backend of the given kind.
    pub fn of_kind(kind: BackendKind) -> (backend: Self)
        ensures
            backend.kind() == kind,
            !backend.is_loaded(),
    {
        match kind {
            BackendKind::Mock => Backend::Mock(MockMLBackend::new()),
            BackendKind::Onnx => Backend::Onnx(ONNXBackend::new()),
            BackendKind::Candle => Backend::Candle(CandleBackend::new()),
        }
    }
}

impl MLBackend for Backend {
    open spec fn is_loaded(&self) -> bool {
        match self {
            Backend::Mock(b) => b.is_loaded(),
            Backend::Onnx(b) => b.is_loaded(),
            Backend::Candle(b) => b.is_loaded(),
        }
    }

    open spec fn name_text(&self) -> Seq<char> {
        Backend::name_of(self.kind())
    }

    /// Loads the model of whichever backend this is. Only the ONNX backend
    /// can fail, and only for want of a path.
    fn load_model(&mut self, model_path: Option<&str>) -> (r: Result<(), BackendError>)
        ensures
            final(self).kind() == old(self).kind(),
            r is Ok <==> Backend::load_succeeds(old(self).kind(), model_path is Some),
            r matches Err(e) ==> e == BackendError::ModelPathRequired,
            match (*final(self), model_path) {
                (Backend::Onnx(b), Some(path)) => b.session matches Some(p) && p@ == path@,
                _ => true,
            },
    {
        match self {
            Backend::Mock(b) => b.load_model(model_path),
            Backend::Onnx(b) => b.load_model(model_path),
            Backend::Candle(b) => b.load_model(model_path),
        }
    }

    fn process_frame(&self, frame: &FrameImage, timestamp: i64) -> (r: Result<
        FrameAnalysis,
        BackendError,
    >)
        ensures
            r matches Ok(a) ==> a@ == Backend::analysis_of(self.kind(), *frame, timestamp),
    {
        match self {
            Backend::Mock(b) => b.process_frame(frame, timestamp),
            Backend::Onnx(b) => b.process_frame(frame, timestamp),
            Backend::Candle(b) => b.process_frame(frame, timestamp),
        }
    }

    fn backend_name(&self) -> (name: &'static str) {
        match self {
            Backend::Mock(b) => b.backend_name(),
            Backend::Onnx(b) => b.backend_name(),
            Backend::Candle(b) => b.backend_name(),
        }
    }
}

/// The lower-case form of a text, as the standard library computes it.
pub uninterp spec fn lowercase_of(s: Seq<char>) -> Seq<char>;

/// The lower-case form of `s`.
///
/// Trusted: `str::to_lowercase` of the standard library. Its result depends
/// on the characters of `s` alone and is named `lowercase_of`.
#[verifier::external_body]
pub(crate) fn to_lowercase(s: &str) -> (lower: String)
    ensures
        lower@ == lowercase_of(s@),
{
    s.to_lowercase()
}

/// The backend kind that a lower-case name selects. A name that is not
/// recognised selects the mock backend.
pub open spec fn kind_for(lowered: Seq<char>) -> BackendKind {
    if lowered == "onnx"@ {
        BackendKind::Onnx
    } else if lowered == "candle"@ {
        BackendKind::Candle
    } else {
        BackendKind::Mock
    }
}

/// Whether a lower-case name is that of a backend.
pub open spec fn is_known_name(lowered: Seq<char>) -> bool {
    lowered == "mock"@ || lowered == "onnx"@ || lowered == "candle"@
}

/// Whether a name already in lower case is that of a backend.
pub fn names_a_backend(lowered: &str) -> (known: bool)
    ensures
        known == is_known_name(lowered@),
{
    let name = String::from_str(lowered);
    name == String::from_str("mock") || name == String::from_str("onnx") || name
        == String::from_str("candle")
}

/// Whether `backend_type` names a backend, whatever its letter case. A
/// caller may warn where it does not: the mock backend then stands in.
pub fn is_known_backend(backend_type: &str) -> (known: bool)
    ensures
        known == is_known_name(lowercase_of(backend_type@)),
{
    let lowered = to_lowercase(backend_type);
    names_a_backend(lowered.as_str())
}

/// The backend kind selected by a name already in lower case.
pub fn backend_kind_for(lowered: &str) -> (kind: BackendKind)
    ensures
        kind == kind_for(lowered@),
{
    let name = String::from_str(lowered);
    if name == String::from_str("onnx") {
        BackendKind::Onnx
    } else if name == String::from_str("candle") {
        BackendKind::Candle
    } else {
        BackendKind::Mock
    }
}

/// Creates the backend that `backend_type` names, whatever its letter case.
/// An unrecognised name is no error: it gives the mock backend.
pub fn create_ml_backend(backend_type: &str) -> (r: Result<Backend, BackendError>)
    ensures
        r matches Ok(backend) && backend.kind() == kind_for(lowercase_of(backend_type@))
            && !backend.is_loaded(),
{
    let lowered = to_lowercase(backend_type);
    let kind = backend_kind_for(lowered.as_str());
    Ok(Backend::of_kind(kind))
}

} // verus!
