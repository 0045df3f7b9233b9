//! The verified core of a learning application.
//!
//! `tts` narrates lesson text: sentence segmentation, WAVE coding,
//! content-addressed caching, timeline stitching, the bundle store and the
//! engine adapter's decisions. Beside it stand the parsers of git's output,
//! course sources and manifests, the login shell's environment, settings
//! defaults, application paths and the records the front end receives.
pub mod container;
pub mod course;
pub mod git;
pub mod num;
pub mod paths;
pub mod sessions;
pub mod settings;
pub mod shell_env;
pub mod text;
pub mod tts;
