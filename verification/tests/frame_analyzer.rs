use video_audio_processor::frame_analyzer::{load_model, process_frame, FrameAnalyzer, FrameResult};
use video_audio_processor::ml_backend::{
    BackendError, BackendKind, DetectionResult, FrameAnalysis, FrameImage,
};

fn image() -> FrameImage {
    FrameImage { width: 320, height: 240 }
}

#[test]
fn analyzer_reports_the_name_of_its_backend() {
    assert_eq!(FrameAnalyzer::new("mock").unwrap().backend_name(), "Mock ML Backend");
    assert_eq!(FrameAnalyzer::new("onnx").unwrap().backend_name(), "ONNX Runtime Backend");
    assert_eq!(FrameAnalyzer::new("CANDLE").unwrap().backend_name(), "Candle ML Backend");
    assert_eq!(FrameAnalyzer::new("no such backend").unwrap().backend_name(), "Mock ML Backend");
}

#[test]
fn analyzer_of_a_kind() {
    assert_eq!(FrameAnalyzer::with_kind(BackendKind::Candle).backend_name(), "Candle ML Backend");
    assert_eq!(FrameAnalyzer::with_kind(BackendKind::Candle).backend_kind(), BackendKind::Candle);
    assert_eq!(FrameAnalyzer::new("Onnx").unwrap().backend_kind(), BackendKind::Onnx);
    assert_eq!(FrameAnalyzer::new("other").unwrap().backend_kind(), BackendKind::Mock);
}

#[test]
fn analyzer_refuses_frames_before_loading() {
    let analyzer = FrameAnalyzer::new("candle").unwrap();
    assert_eq!(analyzer.process_frame(&image(), 0).unwrap_err(), BackendError::ModelNotLoaded);
}

#[test]
fn analyzer_processes_frames_after_loading() {
    let mut analyzer = FrameAnalyzer::new("candle").unwrap();
    analyzer.load_model(None).unwrap();
    let analysis = analyzer.process_frame(&image(), 1_500_000).unwrap();
    assert_eq!(analysis.timestamp, 1_500_000);
    assert_eq!(analysis.detections[0].label, "candle_object_320x240");
}

#[test]
fn onnx_analyzer_needs_a_path() {
    let mut analyzer = FrameAnalyzer::new("onnx").unwrap();
    assert_eq!(analyzer.load_model(None).unwrap_err(), BackendError::ModelPathRequired);
    assert_eq!(analyzer.process_frame(&image(), 0).unwrap_err(), BackendError::ModelNotLoaded);
    assert!(analyzer.load_model(Some("yolo.onnx")).is_ok());
    assert_eq!(
        analyzer.process_frame(&image(), 0).unwrap().detections[0].label,
        "onnx_detection_320x240"
    );
}

#[test]
fn default_analyzer_is_a_loaded_mock() {
    let analyzer = load_model().unwrap();
    assert_eq!(analyzer.backend_name(), "Mock ML Backend");
    let analysis = process_frame(&image(), &analyzer, 33).unwrap();
    assert_eq!(analysis.timestamp, 33);
    assert_eq!(analysis.detections[0].label, "mock_object");
}

#[test]
fn flat_form_keeps_every_detection_in_order() {
    let analysis = FrameAnalysis {
        timestamp: 77,
        detections: vec![
            DetectionResult { label: "a".to_string(), confidence: 1, bbox: [1, 2, 3, 4] },
            DetectionResult { label: "b".to_string(), confidence: 2, bbox: [-5, -6, -7, -8] },
        ],
    };
    let flat = FrameResult::from_analysis(analysis);
    assert_eq!(flat.timestamp, 77);
    assert_eq!(
        flat.objects,
        vec![("a".to_string(), 1u32, [1i64, 2, 3, 4]), ("b".to_string(), 2u32, [-5i64, -6, -7, -8])]
    );
}

#[test]
fn flat_form_of_an_empty_analysis() {
    let flat = FrameResult::from_analysis(FrameAnalysis { timestamp: 0, detections: Vec::new() });
    assert!(flat.objects.is_empty());
}
