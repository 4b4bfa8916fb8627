//! An ordered, windowed frame output engine.
//!
//! Frames are requested from an asynchronous producer a bounded number at a
//! time, arrive in any order, and leave through a byte sink strictly by index.
pub mod args;
pub mod config;
pub mod coordinator;
pub mod header;
pub mod record;
pub mod slot;

pub use args::find_separator;
pub use config::{initial_requests, validate_config, Config, ConfigError};
pub use coordinator::{Coordinator, ErrorKind, FrameError, OutputError, Step};
pub use header::{y4m_colorspace, Chroma, ClipFormat, ColorFamily, Colorspace, Depth, HeaderError, SampleType};
pub use record::{frame_record, plane_order, ByteSink, MemorySink, NullSink};
pub use slot::{FrameSlot, Stream};
