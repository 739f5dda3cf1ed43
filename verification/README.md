# a2a2

Plays what a Bluetooth source sends (A2DP) on AirPlay speakers.

`src/` is the library: what the bridge decides and in which order it acts, with
contracts and laws that Verus proves. It does no I/O. `app/` is the program around it: it runs
the commands that the library names, hands their output back, and does what the
library answers. It needs `liba2`, the AirPlay client, beside the crates in
`Cargo.toml`.

| Module | What it decides |
| --- | --- |
| `run` | the order in which the bridge is brought up and taken down |
| `control` | what media commands, buttons and ticks lead to |
| `stream` | the account of captured, sent and dropped frames |
| `buttons` | debouncing, short and long presses, their commands |
| `avrcp` | media commands out of `dbus-monitor`'s output |
| `airplay` | which device or group a text means |
| `bluetooth::pairing` | when a pairing prompt is answered |
| `bluetooth::capture` | the wait for a source |
| `bluetooth::setup` | whether the system is ready |
| `bluetooth::{adapter, devices, address, error}` | commands for BlueZ and what their output says |
| `cli`, `config`, `doctor` | arguments, configuration, the diagnosis |
| `text`, `split`, `number`, `time`, `command` | the ground the others stand on |

Text is specified as a sequence of characters, times as nanoseconds. A volume is
a number of 127ths, or the bits of a floating-point number where it is only
carried along.
