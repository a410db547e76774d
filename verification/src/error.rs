//! The failures that the library reports.

use vstd::prelude::*;
use vstd::string::StringExecFns;

verus! {

/// A failure of ingestion or of a computation.
#[derive(Debug)]
pub enum VcfError {
    /// A stream could not be opened or read; the text says why.
    Io(String),
    /// A line, a number or a sample identifier is malformed.
    Parse(String),
    /// A region is malformed or empty.
    InvalidRegion(String),
    /// No variant file belongs to the chromosome.
    NoVcfFiles,
    /// The header line does not name the mandatory columns.
    InvalidVcfFormat(String),
    /// A queue of the ingestion pipeline was closed while sending.
    ChannelSend,
    /// A queue of the ingestion pipeline was closed while receiving.
    ChannelRecv,
}

/// A failure with its text as a sequence of characters.
pub enum VcfErrorView {
    Io(Seq<char>),
    Parse(Seq<char>),
    InvalidRegion(Seq<char>),
    NoVcfFiles,
    InvalidVcfFormat(Seq<char>),
    ChannelSend,
    ChannelRecv,
}

impl View for VcfError {
    type V = VcfErrorView;

    open spec fn view(&self) -> VcfErrorView {
        match self {
            VcfError::Io(m) => VcfErrorView::Io(m@),
            VcfError::Parse(m) => VcfErrorView::Parse(m@),
            VcfError::InvalidRegion(m) => VcfErrorView::InvalidRegion(m@),
            VcfError::NoVcfFiles => VcfErrorView::NoVcfFiles,
            VcfError::InvalidVcfFormat(m) => VcfErrorView::InvalidVcfFormat(m@),
            VcfError::ChannelSend => VcfErrorView::ChannelSend,
            VcfError::ChannelRecv => VcfErrorView::ChannelRecv,
        }
    }
}

impl VcfErrorView {
    /// The line that describes the failure to a user.
    pub open spec fn message(self) -> Seq<char> {
        match self {
            VcfErrorView::Io(m) => "IO error: "@ + m,
            VcfErrorView::Parse(m) => "Parse error: "@ + m,
            VcfErrorView::InvalidRegion(m) => "Invalid region: "@ + m,
            VcfErrorView::NoVcfFiles => "No VCF files found"@,
            VcfErrorView::InvalidVcfFormat(m) => "Invalid VCF format: "@ + m,
            VcfErrorView::ChannelSend => "Error sending data through channel"@,
            VcfErrorView::ChannelRecv => "Error receiving data from channel"@,
        }
    }
}

impl VcfError {
    /// A parse failure with the text `text`.
    pub fn parse(text: &str) -> (e: VcfError)
        ensures
            e@ == VcfErrorView::Parse(text@),
    {
        VcfError::Parse(text.to_owned())
    }

    /// The line that describes the failure to a user.
    pub fn message(&self) -> (text: String)
        ensures
            text@ == self@.message(),
    {
        match self {
            VcfError::Io(m) => "IO error: ".to_owned().concat(m.as_str()),
            VcfError::Parse(m) => "Parse error: ".to_owned().concat(m.as_str()),
            VcfError::InvalidRegion(m) => "Invalid region: ".to_owned().concat(m.as_str()),
            VcfError::NoVcfFiles => "No VCF files found".to_owned(),
            VcfError::InvalidVcfFormat(m) => "Invalid VCF format: ".to_owned().concat(m.as_str()),
            VcfError::ChannelSend => "Error sending data through channel".to_owned(),
            VcfError::ChannelRecv => "Error receiving data from channel".to_owned(),
        }
    }
}

} // verus!
