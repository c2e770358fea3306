use vstd::prelude::*;

verus! {

/// The errors of the wave database.
#[derive(Debug, Clone)]
pub enum Waverr {
    /// Any other failure, with a description.
    GenericErr(String),
    /// The VCD input could not be read.
    VCDErr(&'static str),
    /// No bucket is stored for a signal in a time slice.
    MissingID(&'static str),
    /// The database could not store or return a value.
    SledError(String),
}

} // verus!
