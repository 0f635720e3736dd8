mod clock;
mod text;

pub mod codec;
pub mod engine;
pub mod model;

pub use engine::Command;
pub use engine::Engine;
pub use engine::EngineEvent;
pub use model::Clip;
pub use model::PlaybackState;
pub use model::Project;
pub use model::Timeline;
