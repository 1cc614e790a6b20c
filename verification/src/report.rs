//! Encoding of the LED feature report.
//!
//! The controller takes one fixed 48-byte feature report: a report
//! identifier and two flag bytes at the front, the three color channels at
//! offsets 45 to 47, and zero everywhere else. The layout is dictated by the
//! device firmware and is reproduced byte for byte.

use vstd::prelude::*;

verus! {

/// Total length in bytes of the LED feature report.
pub const REPORT_LEN: usize = 48;

/// Byte standing at offset `i` of the feature report for the color
/// `(r, g, b)`: the fixed header at offsets 0 to 2, the channels at
/// offsets 45 to 47, zero everywhere else.
pub open spec fn report_byte(r: u8, g: u8, b: u8, i: int) -> u8 {
    if i == 0 {
        0x02
    } else if i == 1 {
        0xff
    } else if i == 2 {
        0xf7
    } else if i == 45 {
        r
    } else if i == 46 {
        g
    } else if i == 47 {
        b
    } else {
        0
    }
}

/// The whole feature report for the color `(r, g, b)`, as a byte sequence.
pub open spec fn report_seq(r: u8, g: u8, b: u8) -> Seq<u8> {
    Seq::new(REPORT_LEN as nat, |i: int| report_byte(r, g, b, i))
}

/// Encode the LED feature report that sets the color `(r, g, b)`.
pub fn create_report(r: u8, g: u8, b: u8) -> (report: Vec<u8>)
    ensures
        report@ == report_seq(r, g, b),
        report@.len() == REPORT_LEN,
{
    let mut report: Vec<u8> = Vec::new();
    let mut i: usize = 0;
    while i < REPORT_LEN
        invariant
            i <= REPORT_LEN,
            report@.len() == i,
            forall|j: int| 0 <= j < i ==> report@[j] == 0u8,
        decreases REPORT_LEN - i,
    {
        report.push(0u8);
        i = i + 1;
    }
    report.set(0, 0x02);
    report.set(1, 0xff);
    report.set(2, 0xf7);
    report.set(45, r);
    report.set(46, g);
    report.set(47, b);
    proof {
        assert(report@ =~= report_seq(r, g, b));
    }
    report
}

/// Law: the encoded report has exactly the fixed layout — the header bytes
/// `0x02, 0xff, 0xf7` at offsets 0 to 2, the channels at offsets 45 to 47,
/// and zero at each of the other 42 offsets, for every color.
pub proof fn lemma_report_layout(r: u8, g: u8, b: u8)
    ensures
        report_seq(r, g, b).len() == REPORT_LEN,
        report_seq(r, g, b)[0] == 0x02,
        report_seq(r, g, b)[1] == 0xff,
        report_seq(r, g, b)[2] == 0xf7,
        report_seq(r, g, b)[45] == r,
        report_seq(r, g, b)[46] == g,
        report_seq(r, g, b)[47] == b,
        forall|i: int|
            0 <= i < REPORT_LEN && i != 0 && i != 1 && i != 2 && i != 45 && i != 46 && i != 47
                ==> report_seq(r, g, b)[i] == 0,
{
}

/// Law: reading the channel bytes at offsets 45 to 47 back out of an
/// encoded report recovers exactly the color that was encoded.
pub proof fn lemma_report_round_trip(r: u8, g: u8, b: u8)
    ensures
        report_seq(r, g, b)[45] == r,
        report_seq(r, g, b)[46] == g,
        report_seq(r, g, b)[47] == b,
{
}

/// Decide the single HID write a run performs: no color request means no
/// write at all, and a requested color means exactly one write of its
/// encoded report.
pub fn led_report_for(color: Option<(u8, u8, u8)>) -> (w: Option<Vec<u8>>)
    ensures
        w is Some <==> color is Some,
        (color matches Some(c) ==> (w matches Some(rep) && rep@ == report_seq(c.0, c.1, c.2))),
{
    match color {
        None => None,
        Some((r, g, b)) => Some(create_report(r, g, b)),
    }
}

} // verus!
