//! The processing configuration and its defaults.

use vstd::prelude::*;
use vstd::string::*;
use crate::file_names::names_view;

verus! {

/// Everything a run can be configured with.
#[derive(Debug)]
pub struct ProcessingConfig {
    pub batch: BatchConfig,
    pub ml_models: MLConfig,
    pub output: OutputConfig,
}

/// Where a batch reads and writes, and how.
#[derive(Debug)]
pub struct BatchConfig {
    pub input_directory: String,
    pub output_directory: String,
    pub video_extensions: Vec<String>,
    pub max_concurrent_videos: usize,
    pub skip_existing: bool,
}

/// The models and how their results are filtered.
#[derive(Debug)]
pub struct MLConfig {
    pub video_model_path: Option<String>,
    pub audio_model_path: Option<String>,
    /// In millionths: 500 000 stands for one half.
    pub confidence_threshold: u32,
    pub use_gpu: bool,
}

/// What is kept of a run, and in which format.
#[derive(Debug)]
pub struct OutputConfig {
    pub save_frames: bool,
    pub save_audio: bool,
    /// One of `json`, `csv`, `txt`.
    pub output_format: String,
    pub include_timestamps: bool,
}

/// The extensions that the default configuration takes for videos.
pub open spec fn default_extensions() -> Seq<Seq<char>> {
    seq!["mp4"@, "avi"@, "mov"@, "mkv"@, "wmv"@, "flv"@, "webm"@]
}

impl ProcessingConfig {
    /// Whether this is the default configuration.
    pub open spec fn is_default(&self) -> bool {
        &&& self.batch.input_directory@ == "input_videos"@
        &&& self.batch.output_directory@ == "output_results"@
        &&& names_view(self.batch.video_extensions@) == default_extensions()
        &&& self.batch.max_concurrent_videos == 4
        &&& self.batch.skip_existing
        &&& self.ml_models.video_model_path is None
        &&& self.ml_models.audio_model_path is None
        &&& self.ml_models.confidence_threshold == 500_000
        &&& self.ml_models.use_gpu
        &&& !self.output.save_frames
        &&& !self.output.save_audio
        &&& self.output.output_format@ == "json"@
        &&& self.output.include_timestamps
    }
}

impl Default for ProcessingConfig {
    /// Reads `input_videos`, writes `output_results` as JSON with
    /// timestamps, takes seven container extensions for videos, keeps
    /// neither frames nor audio, and filters at one half.
    fn default() -> (config: Self)
        ensures
            config.is_default(),
    {
        let mut video_extensions: Vec<String> = Vec::new();
        video_extensions.push(String::from_str("mp4"));
        video_extensions.push(String::from_str("avi"));
        video_extensions.push(String::from_str("mov"));
        video_extensions.push(String::from_str("mkv"));
        video_extensions.push(String::from_str("wmv"));
        video_extensions.push(String::from_str("flv"));
        video_extensions.push(String::from_str("webm"));
        assert(names_view(video_extensions@) =~= default_extensions());
        Self {
            batch: BatchConfig {
                input_directory: String::from_str("input_videos"),
                output_directory: String::from_str("output_results"),
                video_extensions,
                max_concurrent_videos: 4,
                skip_existing: true,
            },
            ml_models: MLConfig {
                video_model_path: None,
                audio_model_path: None,
                confidence_threshold: 500_000,
                use_gpu: true,
            },
            output: OutputConfig {
                save_frames: false,
                save_audio: false,
                output_format: String::from_str("json"),
                include_timestamps: true,
            },
        }
    }
}

} // verus!
