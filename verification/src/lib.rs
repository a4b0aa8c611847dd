//! Driver for the Samsung UART, from the S3C6400 to Exynos, Google GS101 and
//! Apple S5L.
//!
//! [`Variant::from_compatible`] selects the UART generation from the
//! devicetree, and [`SerialPort`] carries out the operations on a port. It
//! names the accesses to the device one by one and leaves it to its caller
//! to perform them; see [`program`].

pub mod baud;
pub mod devicetree;
pub mod laws;
pub mod model;
pub mod port;
pub mod program;
pub mod progress;
pub mod registers;
pub mod variant;

pub use baud::calculate_baud_registers;
pub use port::SerialPort;
pub use program::{Request, Step};
pub use progress::{
    EnableIrqProgress, InitEarlyProgress, InitFullProgress, ReceiveProgress, SendProgress,
    WriteProgress,
};
pub use variant::{is_compatible, DivisorStyle, FifoLayout, IrqStyle, Variant};
