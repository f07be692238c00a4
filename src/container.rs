//! What a message container carries besides its messages.
use vstd::prelude::*;
use std::collections::BTreeMap;

verus! {

/// The container's sections other than labels and text, kept as raw bytes
/// so that a rebuilt container holds them unchanged.
#[derive(Debug)]
pub struct MsbtInfo {
    pub group_count: u32,
    pub atr1: Option<Vec<u8>>,
    pub ato1: Option<Vec<u8>>,
    pub tsy1: Option<Vec<u8>>,
    pub nli1: Option<Nli1>,
}

/// The container's numeric line index section.
#[derive(Debug)]
pub struct Nli1 {
    pub id_count: u32,
    pub global_ids: BTreeMap<u32, u32>,
}

} // verus!
