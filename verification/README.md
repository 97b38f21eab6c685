# motor

A verified driver for MKS Servo42C closed-loop stepper drivers spoken to
over a serial line.

`src/` is the library, checked by Verus:

- `serialtrait`: the byte-link trait `Serial`, whose links state through
  `wrote` and `was_read` what a write and a read do to them, its error,
  and the fixed-size wire codec traits `MySize` / `Sendable`;
- `sendable`: big-endian codecs for `u8`, `u16`, `u32`, `i16`, `i32`, `()`
  and pairs, each proved to round-trip;
- `protocol`: frame checksums, command and reply frames, reply decoding
  (`parse_reply`), and the laws about them (valid frames, round trip,
  one-byte corruption caught);
- `standard`, `commands`: the `Servo42C` driver. Each command's contract
  names the frame that the link's `write` receives and decodes its result
  from the bytes that the link's `read` delivers; `new` and
  `configure_linear_acc` run their command lists and stop at the first
  failure;
- `servo42`: errors and the enums of the driver's settings;
- `serial_test`: a link that answers registered requests, for tests;
- `read_loop`: the decisions of a loop that fills a buffer from a link;
- `motor_thread`: the decisions of the driving thread (stop on a kill
  command, switch target every 10 s);
- `motortrait`, `action`: traits and types the controllers and front ends
  build on.

`app/` holds what Verus does not check: the serial-port and UART links, the
floating-point controllers and motor simulations, the driving thread's timers and channels, the
backend state, and a command-line front end.
