//! Decoder for SAS XPORT (version 5/6) transport files.
//!
//! A transport file is a sequence of 80-byte cards that holds one or more
//! datasets: for each, the descriptors of its variables and its observations
//! as rows of fixed width, numbers in IBM/370 hexadecimal floating point.
//! `read_xpt_v5_from_bytes` decodes a whole file, `XPTParser::parse` its first
//! dataset.

pub mod card;
pub mod dataset;
pub mod error;
pub mod export;
pub mod ibm370;
pub mod layout;
pub mod namestr;
pub mod rows;
pub mod text;
pub mod title;
pub mod xpt;
pub mod xpt_parser;

pub use dataset::{Cell, Dataset, VarMeta, VariableType, XPTRow};
pub use error::XptError;
pub use export::{DatasetOut, VarOut};
pub use ibm370::{ibm64_to_f64, IbmMissing};
pub use xpt::read_xpt_v5_from_bytes;
pub use xpt_parser::{XPTDataset, XPTParser, XPTVariable};
