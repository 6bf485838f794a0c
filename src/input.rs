//! Key events decoded from input reports.

use vstd::prelude::*;

verus! {

/// What one input report says of the keys.
#[derive(Clone, Copy, Debug, PartialEq, Eq, Structural)]
pub enum KeyEvent {
    /// Nothing arrived before the read timed out.
    NoData,
    /// The key at this 1-based index is down.
    Pressed(usize),
    /// All keys are up.
    Released,
}

/// Whether byte `k` of a report is the first byte after byte 0 that equals 1.
pub open spec fn first_pressed(report: Seq<u8>, k: int) -> bool {
    &&& 1 <= k < report.len()
    &&& report[k] == 1
    &&& forall|i: int| 1 <= i < k ==> report[i] != 1
}

/// Decodes the bytes of one input report: no bytes is no data; otherwise the
/// first byte after byte 0 that equals 1 names the key pressed, and a report
/// with no such byte is a release.
pub fn decode_key_event(report: &Vec<u8>) -> (e: KeyEvent)
    ensures
        report@.len() == 0 <==> e == KeyEvent::NoData,
        e matches KeyEvent::Pressed(k) ==> first_pressed(report@, k as int),
        e == KeyEvent::Released <==> report@.len() > 0 && forall|i: int|
            1 <= i < report@.len() ==> report@[i] != 1,
{
    if report.len() == 0 {
        return KeyEvent::NoData;
    }
    let mut i: usize = 1;
    while i < report.len()
        invariant
            1 <= i <= report@.len(),
            forall|j: int| 1 <= j < i ==> report@[j] != 1,
        decreases report@.len() - i,
    {
        if report[i] == 1 {
            return KeyEvent::Pressed(i);
        }
        i = i + 1;
    }
    KeyEvent::Released
}

} // verus!
