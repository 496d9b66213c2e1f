//! Error taxonomy of the alert engine's core.

use vstd::prelude::*;

verus! {

/// A structural fault found in the durable store's rows during startup
/// recovery. Recovery fails loudly on these rather than dropping rows.
#[derive(Clone, Copy, Debug, PartialEq, Eq, Structural)]
pub enum Error {
    /// A registration row has no park row joined to its endpoint.
    MissingParkRow,
    /// A rule row carries an alert-kind tag that is none of the three
    /// known tags.
    UnknownAlertKind,
    /// A rule row tagged as a wait rule has no stored threshold.
    MissingWaitThreshold,
}

/// A fault while parsing an upstream ride-times or front page.
#[derive(Debug)]
pub enum ParseError {
    /// Wait time text was not in the form `# mins`; carries the text.
    WaitTimeParse(String),
    /// An href link was missing when needed.
    HrefMissing,
    /// A park link could not be joined into an absolute URL.
    BadParkLink,
}

} // verus!
