//! Verified core of a firmware package analyzer and extractor.

pub mod error;

pub mod bytes;
pub mod text;
pub mod zip;
pub mod fmt;
pub mod script;
pub mod keymap;
pub mod ubi;
pub mod pfl_upg;
pub mod path_sanitize;
pub mod emmc;
pub mod aes;
pub mod msd;
pub mod hexcodec;
pub mod epk;
pub mod mstar_unfd;
pub mod ubifs;
pub mod emmc_gpt;
pub mod emmc_userarea;
pub mod options;
pub mod novatek;
pub mod vestel;
pub mod mstar;
pub mod android_ota;
pub mod pfl_key;
