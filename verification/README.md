# fake_tc6

A simulated OPEN Alliance TC6 (10BASE-T1x MAC-PHY serial interface) device for
testing SPI host drivers, verified with Verus.

- `src/control_header.rs`, `src/transmit_header.rs`, `src/receive_footer.rs`:
  the 32-bit headers and footer of the protocol, their wire layout, validity
  rules and parity bit, with laws for reading back what was written.
- `src/fake_tc6_device.rs`: the device as a byte-at-a-time state machine over
  the SPI bus, specified by `DeviceState::step` and `DeviceState::run`.
- `src/frame_laws.rs`: what a whole data chunk adds to the frames the host sent.
- `src/utils.rs`: single bits, one-bit counts and big-endian words.
- `app/`: the device behind the `embedded-hal` `SpiDevice` trait.
