//! The core of a MIDI viewer that lays songs out across a computer-keyboard
//! shaped board: loading and timing MIDI files, fitting them onto the board,
//! lighting keys, the playback transport, live input, drum synthesis, and the
//! settings kept in the page address.
pub mod controls;
pub mod drums;
pub mod key;
pub mod midi;
pub mod playback;
pub mod smf;
pub mod sort;
pub mod staff;
pub mod synth;
pub mod text;
pub mod render;
pub mod key_geometry;
pub mod layout;
pub mod computer_keys;
pub mod highlight;
pub mod summary;
pub mod settings;
pub mod url_state;
