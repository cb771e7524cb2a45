//! TTL fingerprinting: classifies observed IPv4 time-to-live values against
//! canonical OS baselines, and models the background capture task as a state
//! machine whose per-frame decisions are pure functions.

use vstd::prelude::*;

verus! {

/// Errors of the capture path.
#[derive(Debug, Clone, Copy, PartialEq, Eq, Structural)]
pub enum TtlError {
    CaptureError,
    InvalidTcpPacket,
    ChannelError,
    TimeoutError,
}

/// One sample delivered by the capture task: the TTL byte of a captured
/// IPv4 packet.
#[derive(Debug, Clone, Copy, PartialEq, Eq, Structural)]
pub struct Packet {
    pub ttl: u8,
}

/// Operating-system family suggested by an exact canonical TTL baseline.
#[derive(Debug, Clone, Copy, PartialEq, Eq, Structural)]
pub enum OsFamily {
    LinuxUnix,
    Windows,
    NetworkEquipment,
}

/// Per-sample classification of one observed TTL value.
#[derive(Debug, Clone, Copy, PartialEq, Eq, Structural)]
pub struct TtlAnalysis {
    pub value: u8,
    pub is_suspicious: bool,
    pub probable_os: Option<OsFamily>,
    pub is_vpn: bool,
}

/// What the capture loop does with one read attempt.
#[derive(Debug, Clone, Copy, PartialEq, Eq, Structural)]
pub enum CaptureAction {
    /// The stop flag was observed: leave the loop.
    Exit,
    /// The read failed or the frame holds no IPv4 header: keep capturing.
    Skip,
    /// Deliver this TTL value on the sample queue.
    Deliver(u8),
}

/// A TTL value is suspicious iff it is none of the canonical baselines
/// 64, 128 and 255.
pub open spec fn spec_is_suspicious_ttl(ttl: u8) -> bool {
    ttl != 64 && ttl != 128 && ttl != 255
}

/// The OS family inferred from an exact baseline match, if any.
pub open spec fn spec_probable_os(ttl: u8) -> Option<OsFamily> {
    if ttl == 64 {
        Some(OsFamily::LinuxUnix)
    } else if ttl == 128 {
        Some(OsFamily::Windows)
    } else if ttl == 255 {
        Some(OsFamily::NetworkEquipment)
    } else {
        None
    }
}

/// The VPN-likely rule fires only off an exact baseline match: Linux/Unix
/// with a value below 64, or Windows with a value below 126. A far-below
/// baseline value without an exact match is suspicious but not VPN-likely.
pub open spec fn spec_is_vpn_likely(ttl: u8) -> bool {
    ||| (spec_probable_os(ttl) == Some(OsFamily::LinuxUnix) && ttl < 64)
    ||| (spec_probable_os(ttl) == Some(OsFamily::Windows) && ttl < 126)
}

/// The minimal length of a byte sequence that holds an IPv4 header.
pub const IPV4_MIN_HEADER_LEN: usize = 20;

/// The offset of the TTL byte within an IPv4 header.
pub const IPV4_TTL_OFFSET: usize = 8;

/// The TTL byte of a frame read as an IPv4 packet: the byte at offset 8,
/// present iff the frame is long enough to hold an IPv4 header.
pub open spec fn spec_extract_ttl(frame: Seq<u8>) -> Option<u8> {
    if frame.len() >= IPV4_MIN_HEADER_LEN {
        Some(frame[IPV4_TTL_OFFSET as int])
    } else {
        None
    }
}

/// What the capture loop decides for one read attempt: exit once the stop
/// flag is observed; skip failed reads and frames too short to hold an IPv4
/// header; otherwise deliver the extracted TTL byte.
pub open spec fn spec_capture_step(running: bool, frame: Option<Seq<u8>>) -> CaptureAction {
    if !running {
        CaptureAction::Exit
    } else {
        match frame {
            None => CaptureAction::Skip,
            Some(f) => match spec_extract_ttl(f) {
                None => CaptureAction::Skip,
                Some(ttl) => CaptureAction::Deliver(ttl),
            },
        }
    }
}

/// Model of the capture task: a cooperative running flag. Starting spawns
/// exactly one background task; stopping clears the flag, observed by the
/// loop, so shutdown is eventual rather than immediate.
pub struct TtlDetector {
    pub running: bool,
}

impl TtlDetector {
    /// A detector starts out stopped.
    pub fn new() -> (r: TtlDetector)
        ensures
            !r.running,
    {
        TtlDetector { running: false }
    }

    /// Marks the detector running. Returns whether a capture task must be
    /// spawned: starting is idempotent, so a second call spawns nothing.
    pub fn start(&mut self) -> (spawn: bool)
        ensures
            final(self).running,
            spawn == !old(self).running,
    {
        let was_running = self.running;
        self.running = true;
        !was_running
    }

    /// Clears the running flag; the capture loop observes it cooperatively.
    pub fn stop(&mut self)
        ensures
            !final(self).running,
    {
        self.running = false;
    }

    /// Extracts the TTL byte from a raw frame read as an IPv4 packet: the
    /// byte at offset 8, provided the frame can hold an IPv4 header.
    pub fn extract_ttl(frame: &Vec<u8>) -> (r: Option<u8>)
        ensures
            r == spec_extract_ttl(frame@),
    {
        if frame.len() >= IPV4_MIN_HEADER_LEN {
            Some(frame[IPV4_TTL_OFFSET])
        } else {
            None
        }
    }

    /// One decision of the capture loop, as a pure function of the stop flag
    /// and the outcome of one read (`None` for a failed read).
    pub fn capture_step(running: bool, frame: Option<&Vec<u8>>) -> (r: CaptureAction)
        ensures
            r == spec_capture_step(
                running,
                match frame {
                    Some(f) => Some(f@),
                    None => None,
                },
            ),
    {
        if !running {
            CaptureAction::Exit
        } else {
            match frame {
                None => CaptureAction::Skip,
                Some(f) => match Self::extract_ttl(f) {
                    None => CaptureAction::Skip,
                    Some(ttl) => CaptureAction::Deliver(ttl),
                },
            }
        }
    }

    /// A TTL value is suspicious iff it matches no canonical baseline.
    pub fn is_suspicious_ttl(ttl: u8) -> (r: bool)
        ensures
            r == spec_is_suspicious_ttl(ttl),
    {
        !(ttl == 64 || ttl == 128 || ttl == 255)
    }

    /// Classifies one observed TTL value: baseline membership, probable OS,
    /// and the VPN-likely rule, which fires only off an exact baseline match.
    pub fn analyze_ttl(&self, ttl: u8) -> (r: TtlAnalysis)
        ensures
            r.value == ttl,
            r.is_suspicious == spec_is_suspicious_ttl(ttl),
            r.probable_os == spec_probable_os(ttl),
            r.is_vpn == spec_is_vpn_likely(ttl),
    {
        let is_suspicious = Self::is_suspicious_ttl(ttl);

        let probable_os = if ttl == 64 {
            Some(OsFamily::LinuxUnix)
        } else if ttl == 128 {
            Some(OsFamily::Windows)
        } else if ttl == 255 {
            Some(OsFamily::NetworkEquipment)
        } else {
            None
        };

        let is_vpn = match probable_os {
            Some(OsFamily::LinuxUnix) => ttl < 64,
            Some(OsFamily::Windows) => ttl < 126,
            _ => false,
        };

        TtlAnalysis { value: ttl, is_suspicious, probable_os, is_vpn }
    }
}

} // verus!
