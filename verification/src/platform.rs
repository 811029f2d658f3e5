//! Read-group sequencing platforms (`PL`).

use vstd::prelude::*;
use crate::text::str_eq;

verus! {

/// A read group's sequencing platform.
#[derive(Clone, Copy, Debug, Eq, PartialEq, Structural)]
pub enum Platform {
    /// Capillary electrophoresis sequencing (`CAPILLARY`).
    Capillary,
    /// DNBseq sequencing (`DNBSEQ`).
    DnbSeq,
    /// 454 Life Sciences sequencing (`LS454`).
    LS454,
    /// Illumina sequencing (`ILLUMINA`).
    Illumina,
    /// SOLiD sequencing (`SOLID`).
    Solid,
    /// Helicos sequencing (`HELICOS`).
    Helicos,
    /// Ion Torrent sequencing (`IONTORRENT`).
    IonTorrent,
    /// Oxford Nanopore Technologies sequencing (`ONT`).
    Ont,
    /// Pacific Biosciences sequencing (`PACBIO`).
    PacBio,
}

/// An error returned when a raw platform fails to parse.
#[derive(Clone, Copy, Debug, Eq, PartialEq, Structural)]
pub enum ParseError {
    /// The input is empty.
    Empty,
    /// The input is invalid.
    Invalid,
}

impl Platform {
    /// The canonical upper-case name of the platform.
    pub open spec fn spec_str(self) -> Seq<char> {
        match self {
            Platform::Capillary => "CAPILLARY"@,
            Platform::DnbSeq => "DNBSEQ"@,
            Platform::LS454 => "LS454"@,
            Platform::Illumina => "ILLUMINA"@,
            Platform::Solid => "SOLID"@,
            Platform::Helicos => "HELICOS"@,
            Platform::IonTorrent => "IONTORRENT"@,
            Platform::Ont => "ONT"@,
            Platform::PacBio => "PACBIO"@,
        }
    }

    /// The canonical upper-case name of the platform.
    pub fn as_str(&self) -> (r: &'static str)
        ensures
            r@ == self.spec_str(),
    {
        match self {
            Platform::Capillary => "CAPILLARY",
            Platform::DnbSeq => "DNBSEQ",
            Platform::LS454 => "LS454",
            Platform::Illumina => "ILLUMINA",
            Platform::Solid => "SOLID",
            Platform::Helicos => "HELICOS",
            Platform::IonTorrent => "IONTORRENT",
            Platform::Ont => "ONT",
            Platform::PacBio => "PACBIO",
        }
    }

    /// The canonical upper-case name of the platform, as an owned string.
    pub fn to_string(&self) -> (r: String)
        ensures
            r@ == self.spec_str(),
    {
        String::from_str(self.as_str())
    }

    /// What parsing a raw platform yields: the platform with that canonical
    /// name, an `Empty` error for no input, and an `Invalid` error for
    /// anything else — the match is exact, case included.
    pub open spec fn spec_parse(s: Seq<char>) -> Result<Platform, ParseError> {
        if s.len() == 0 {
            Err(ParseError::Empty)
        } else if s == "CAPILLARY"@ {
            Ok(Platform::Capillary)
        } else if s == "DNBSEQ"@ {
            Ok(Platform::DnbSeq)
        } else if s == "LS454"@ {
            Ok(Platform::LS454)
        } else if s == "ILLUMINA"@ {
            Ok(Platform::Illumina)
        } else if s == "SOLID"@ {
            Ok(Platform::Solid)
        } else if s == "HELICOS"@ {
            Ok(Platform::Helicos)
        } else if s == "IONTORRENT"@ {
            Ok(Platform::IonTorrent)
        } else if s == "ONT"@ {
            Ok(Platform::Ont)
        } else if s == "PACBIO"@ {
            Ok(Platform::PacBio)
        } else {
            Err(ParseError::Invalid)
        }
    }

    /// Parses a raw platform name.
    pub fn from_str(s: &str) -> (r: Result<Platform, ParseError>)
        ensures
            r == Platform::spec_parse(s@),
    {
        proof {
            reveal_strlit("CAPILLARY");
            reveal_strlit("DNBSEQ");
            reveal_strlit("LS454");
            reveal_strlit("ILLUMINA");
            reveal_strlit("SOLID");
            reveal_strlit("HELICOS");
            reveal_strlit("IONTORRENT");
            reveal_strlit("ONT");
            reveal_strlit("PACBIO");
        }
        if s.is_empty() {
            Err(ParseError::Empty)
        } else if str_eq(s, "CAPILLARY") {
            Ok(Platform::Capillary)
        } else if str_eq(s, "DNBSEQ") {
            Ok(Platform::DnbSeq)
        } else if str_eq(s, "LS454") {
            Ok(Platform::LS454)
        } else if str_eq(s, "ILLUMINA") {
            Ok(Platform::Illumina)
        } else if str_eq(s, "SOLID") {
            Ok(Platform::Solid)
        } else if str_eq(s, "HELICOS") {
            Ok(Platform::Helicos)
        } else if str_eq(s, "IONTORRENT") {
            Ok(Platform::IonTorrent)
        } else if str_eq(s, "ONT") {
            Ok(Platform::Ont)
        } else if str_eq(s, "PACBIO") {
            Ok(Platform::PacBio)
        } else {
            Err(ParseError::Invalid)
        }
    }
}

impl core::str::FromStr for Platform {
    type Err = ParseError;

    fn from_str(s: &str) -> Result<Platform, ParseError> {
        Platform::from_str(s)
    }
}

} // verus!
