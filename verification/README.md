# ardor_mouse

Linux configuration tool for the ARDOR GAMING Edge Air Ultra mouse (PMW3370
sensor, JM03 controller), with its protocol logic written and proved in Verus.

- `src/` — the verified library:
  - `protocol/packet` — 17-byte JM03 frames, checksum, answer parsing;
  - `protocol/dpi`, `protocol/led`, `protocol/buttons` — field codecs;
  - `protocol/eeprom` — the profile map, decoding with fallbacks, the regions
    to write, validation; `eeprom/image` proves that writing the changed
    regions and reading back gives the edited profile;
  - `transport` — the command exchange as a state machine (drain, send,
    wait, retry), EEPROM read and write plans, the simulator, recognition of
    the command interface among `/dev/hidraw*`;
  - `session` — decisions of the background session (link state, notices,
    what to write, when a read replaces the edited profile);
  - `status` — the link and battery captions and the status line.
- `app/` — the program around it: the `syngui` window, the background thread,
  the `/dev/hidraw` transport over `libc`, and the loop that runs the
  exchange state machine with real waits.
- `tests/` — tests of the library, run against the simulator.
