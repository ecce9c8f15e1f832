pub mod bignat;
pub mod channels;
pub mod decibel;
pub mod energy;
pub mod error;
pub mod float;
pub mod format;
pub mod ideal;
pub mod laws;
pub mod machine;
pub mod naming;
pub mod resample;
pub mod segmenter;
pub mod splitter;
pub mod stream;
