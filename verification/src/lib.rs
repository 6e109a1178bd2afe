//! Verified core of Luma Swarm Studio: formation and cue vocabulary, the show
//! timeline, animated-image timing, the image display lattice, OBJ structure
//! parsing, spatial slot ordering, the cumulative collision log and incident
//! history, fleet sizing and GPU sizing decisions.

pub mod model;
pub mod camera;
pub mod safety_log;
pub mod incidents;
pub mod timeline;
pub mod animation;
pub mod image_formation;
pub mod image_decoding;
pub mod renderer;
pub mod assignment;
pub mod formation_import;
pub mod fleet;
