//! Typed representations of BMFF boxes.
pub mod common;
pub mod btrt;
pub mod pasp;
pub mod clap;
pub mod smhd;
pub mod hmhd;
pub mod vmhd;
pub mod mfhd;
pub mod trex;
pub mod mehd;
pub mod tfdt;
pub mod mdhd;
pub mod tkhd;
pub mod mvhd;
pub mod co64;
pub mod stss;
pub mod stdp;
pub mod pdin;
pub mod ftyp;
pub mod styp;
pub mod hdlr;
pub mod free;
pub mod tfhd;
pub mod stco;
pub mod stts;
pub mod ctts;
pub mod stsc;
pub mod stsh;
pub mod stsz;
pub mod cslg;
pub mod stz2;
pub mod sdtp;
pub mod sbgp;
pub mod sgpd;
pub mod stsd;
pub mod stbl;
pub mod elst;
pub mod edts;
pub mod dref;
pub mod trak;
pub mod trgr;
pub mod dinf;
pub mod mvex;
pub mod moov;
pub mod colr;
pub mod chnl;
pub mod dmix;
pub mod sample_entry;
pub mod trun;
pub mod nal;
