# rpb3_lib

Board support for a Raspberry Pi 3 (BCM2837), with its contracts proved by
Verus: GPIO pin functions, outputs and pulls, the status LEDs, the mini UART,
the auxiliary-peripheral enables, the framing of the loader's commands and
replies, the loader's steps, and the kernel's reports.

## The register model

Each driver owns an image of its register block (`GPIORegs`, `UartRegs`,
`AuxRegs`) at the block's bus address. A register is a cell that knows its
own bus address: `RW` (a control register, whose reads give what was last
written), `W` (write-only), `R` (read-only, set by the device) or `DevRW` (a
data register, written by the driver and read from the device). A cell
read from the device also holds the values the device will present at the
next reads, in order, and a read takes the next one. So the line status that
the UART polls, and the bytes it receives, come from the device: `send` waits
until a status with bit 5 arrives, `recv` until one with bit 0 arrives and
then takes the next byte of input. Their contracts require only that such a
status eventually comes.

Each driver keeps a `Bus`, the record of what it has done on the bus, oldest
first: every write as the written register's bus address and the value, and
every busy-wait with its number of iterations. The record is private to
`utils`: it grows only inside `Bus::write_rw`, `write_w`, `write_dev` and the
`Bus` waits, each of which makes the write or the wait it records, and cells
can be written only through them. Each writable cell also keeps the values
written to it, and a driver's well-formedness (kept by every step) says these
are exactly the writes to its address in the record: a write that the record
shows was made to that register. `Peripherial` keeps one record for all three
drivers: the mini UART's driver holds it, and the others take it for their
steps and hand it back. So the contracts of the drivers and of the composite
steps (setting the UART up, answering a command, the reports) state the exact
sequence of writes and waits that the code makes.

## Layout

- `src/utils.rs` register cells, the bus record, bit-range operations and
  their laws, delays
- `src/gpio.rs`, `src/gpio_leds.rs`, `src/uart.rs`, `src/aux.rs`, `src/lib.rs`
  the drivers
- `src/uart_command.rs` the 16-byte command and reply frames, with
  round-trip laws
- `src/loader.rs`, `src/kernel.rs`, `src/aarch64.rs` the firmware steps
- `app/` the host program that sends a binary to the loader over a serial
  port, and (on aarch64 only) what the library cannot do: the instructions
  that read system registers, find the loader's end, store data and jump,
  and the firmware loops that call the library's steps between them
