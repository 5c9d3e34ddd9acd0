//! Real-time voice conversion: the checkpoint reader, the stream layouts, the state machines and
//! the settings of the voice changer.
pub mod bits;
pub mod config;
pub mod control;
pub mod deiteris;
pub mod dsp;
pub mod engine;
pub mod error;
pub mod generator;
pub mod gpu_pipeline;
pub mod gpu_pitch;
pub mod gpu_pre;
pub mod gpu_runtime;
pub mod infer;
pub mod input;
pub mod json;
pub mod mel;
pub mod model;
pub mod monitor;
pub mod native;
pub mod onset;
pub mod owner;
pub mod pickle;
pub mod pitch;
pub mod plan;
pub mod processor;
pub mod realtime;
pub mod session;
pub mod settings;
pub mod startup;
pub mod text;
pub mod tg;
pub mod voice_model;
pub mod written;
