//! Sets the LED color of a DualSense or DualSense Edge controller over HID.
//!
//! The library holds the three verified pieces of that job: recognizing a
//! supported controller in an enumerated device list, parsing the `R,G,B`
//! command-line token, and encoding the 48-byte LED feature report. The
//! binary around it does the HID enumeration, open and write calls.

pub mod color;
pub mod device;
pub mod report;
