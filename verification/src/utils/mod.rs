pub mod sequencer;
