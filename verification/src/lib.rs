//! Procedural animation from MIDI input: MIDI ingest, node-graph evaluation,
//! scene diffing and keyframe planning, with machine-checked contracts.

pub mod animation;
pub mod channels;
pub mod file;
pub mod gm;
pub mod json;
pub mod keyframes;
pub mod graph;
pub mod midi;
pub mod node;
pub mod nodes;
pub mod note_input;
pub mod notes;
pub mod numbers;
pub mod padding;
pub mod parse;
pub mod scene;
pub mod scene_diff;
pub mod scene_json;
pub mod scene_send;
pub mod smf;
pub mod stable;
pub mod state;
pub mod tempo;
pub mod track;
pub mod transport;
pub mod text;
pub mod timing;
