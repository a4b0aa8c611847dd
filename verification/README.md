# uart_samsung

A driver for the Samsung UART and its descendants: S3C6400, S5PV210, Exynos,
Google GS101 and Apple S5L. Its logic is verified with Verus.

- `src/` is the driver. `variant` selects the UART generation from a
  devicetree compatible list, `baud` computes divisors, and `port` holds the
  serial port and its operations: `init_early`, `init_full`, `enable_irq`,
  `receive`, `send` and `write`.
- `app/` performs the driver's requests on mapped device memory.
- `tests/` runs the driver against scripted and simulated devices.

## How operations work

The driver never touches the device. Each call of an operation's method
returns a `Request`, a single access to a register or a message to the console,
and the next call takes the reply. When nothing is left to request, the call
returns the result.

What an operation does as a whole is a `Program` (`src/program.rs`): a tree
of requests that branches on their replies. `src/model.rs` gives the program
of every operation, and the methods in `src/port.rs` are proved to walk
through exactly that program, step by step. `src/laws/` states what follows
for every device, however it replies:

- `selection`: the first recognized compatible value wins.
- `setup`: initialization waits for an idle transmitter, finishes within a
  bound, and makes its writes in order or reports an error.
- `clock`: every operation keeps the clock select that it finds in UCON.
- `receive`: the console gets the characters received without errors, in
  order, and is notified if there were any.
- `transmit`: output is sent byte by byte, each when there is room for it.
- `footprint`: every access is aligned and within the register block, and
  the firmware's line configuration is kept where it has to be.
