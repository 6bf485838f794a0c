//! Firmware revisions: their report sizes, version offsets and commands.

use vstd::prelude::*;

verus! {

/// A firmware revision of a Stream Deck device.
#[derive(Clone, Copy, Debug, PartialEq, Eq, Structural)]
pub enum FirmwareKind {
    V1,
    Mini,
    V2,
}

/// The command that sets the display brightness; one brightness byte follows it.
pub open spec fn brightness_command_spec() -> Seq<u8> {
    seq![0x05u8, 0x55, 0xaa, 0xd1, 0x01]
}

impl FirmwareKind {
    /// Length of every feature report exchanged with this revision.
    pub open spec fn report_size_spec(self) -> nat {
        match self {
            FirmwareKind::V1 => 17,
            FirmwareKind::Mini => 17,
            FirmwareKind::V2 => 32,
        }
    }

    /// Offset in a feature report at which the version text starts.
    pub open spec fn version_offset_spec(self) -> nat {
        match self {
            FirmwareKind::V1 => 5,
            FirmwareKind::Mini => 5,
            FirmwareKind::V2 => 6,
        }
    }

    /// Length of every feature report exchanged with this revision.
    pub fn feature_report_size(&self) -> (r: usize)
        ensures
            r == self.report_size_spec(),
    {
        match self {
            FirmwareKind::V1 => 17,
            FirmwareKind::Mini => 17,
            FirmwareKind::V2 => 32,
        }
    }

    /// Offset in a feature report at which the version text starts.
    pub fn version_offset(&self) -> (r: usize)
        ensures
            r == self.version_offset_spec(),
    {
        match self {
            FirmwareKind::V1 => 5,
            FirmwareKind::Mini => 5,
            FirmwareKind::V2 => 6,
        }
    }

    /// The command that sets the display brightness.
    pub fn brightness_command(&self) -> (r: Vec<u8>)
        ensures
            r@ == brightness_command_spec(),
    {
        let r: Vec<u8> = vec![0x05u8, 0x55, 0xaa, 0xd1, 0x01];
        assert(r@ =~= brightness_command_spec());
        r
    }
}

/// A firmware revision known at compile time.
pub trait Firmware {
    /// The revision this firmware is.
    spec fn revision() -> FirmwareKind;

    /// The revision this firmware is.
    fn kind() -> (k: FirmwareKind)
        ensures
            k == Self::revision(),
    ;

    /// Offset in a feature report at which the version text starts.
    fn get_firmware_version_offset() -> (r: usize)
        ensures
            r == Self::revision().version_offset_spec(),
    ;
}

/// The first revision of the Stream Deck firmware.
pub struct FirmwareV1;

impl Firmware for FirmwareV1 {
    open spec fn revision() -> FirmwareKind {
        FirmwareKind::V1
    }

    fn kind() -> (k: FirmwareKind) {
        FirmwareKind::V1
    }

    fn get_firmware_version_offset() -> (r: usize) {
        5
    }
}

/// The firmware of the Stream Deck Mini.
pub struct FirmwareMini;

impl Firmware for FirmwareMini {
    open spec fn revision() -> FirmwareKind {
        FirmwareKind::Mini
    }

    fn kind() -> (k: FirmwareKind) {
        FirmwareKind::Mini
    }

    fn get_firmware_version_offset() -> (r: usize) {
        5
    }
}

/// The second revision of the Stream Deck firmware.
pub struct FirmwareV2;

impl Firmware for FirmwareV2 {
    open spec fn revision() -> FirmwareKind {
        FirmwareKind::V2
    }

    fn kind() -> (k: FirmwareKind) {
        FirmwareKind::V2
    }

    fn get_firmware_version_offset() -> (r: usize) {
        6
    }
}

/// The text that `String::from_utf8_lossy` makes of `bytes`.
pub uninterp spec fn utf8_lossy(bytes: Seq<u8>) -> Seq<char>;

/// Relies on `String::from_utf8_lossy`: the text depends on the bytes alone,
/// and no bytes give the empty text.
#[verifier::external_body]
fn lossy_text(bytes: &[u8]) -> (r: String)
    ensures
        r@ == utf8_lossy(bytes@),
        bytes@.len() == 0 ==> r@.len() == 0,
{
    String::from_utf8_lossy(bytes).into_owned()
}

/// The firmware version held in a feature report: the text of its bytes from
/// `offset` to the end.
pub fn decode_firmware_version(report: &Vec<u8>, offset: usize) -> (r: String)
    requires
        offset <= report@.len(),
    ensures
        r@ == utf8_lossy(report@.subrange(offset as int, report@.len() as int)),
{
    let mut tail: Vec<u8> = Vec::new();
    let mut i: usize = offset;
    while i < report.len()
        invariant
            offset <= i <= report@.len(),
            tail@ == report@.subrange(offset as int, i as int),
        decreases report@.len() - i,
    {
        tail.push(report[i]);
        i = i + 1;
        assert(tail@ =~= report@.subrange(offset as int, i as int));
    }
    lossy_text(tail.as_slice())
}

} // verus!
