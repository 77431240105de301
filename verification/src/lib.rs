//! Fixture-driven numeric tests of device kernels: the inputs that the kernels are given, byte by
//! byte, and the verdicts on what they give back.
pub mod archive;
pub mod binary32;
pub mod binary32_laws;
pub mod buffers;
pub mod buffers_media;
pub mod buffers_text;
pub mod bytes;
pub mod catalogue;
pub mod catalogue_laws;
pub mod compare;
pub mod compare_laws;
pub mod elements;
pub mod fixture;
pub mod fixture_laws;
pub mod header;
pub mod header_laws;
pub mod location;
pub mod logits;
pub mod outputs;
pub mod outputs_laws;
pub mod prng;
pub mod prng_laws;
pub mod report;
pub mod rope;
pub mod shims;
pub mod shims_laws;
pub mod shims_media;
pub mod stage;
pub mod synth;
pub mod synth_laws;
pub mod table;
pub mod text;
