# lcm-status

A status daemon for the front panel of ASUSTOR storage devices: the two-line
display (LCM), the front LEDs and the fans.

- `src/` is the library. It holds everything that the daemon decides, on plain
  values, with contracts that Verus proves. `src/model.rs` states what each event
  does to the state machine, `src/laws.rs` what holds of it as a whole.
- `app/` is the program around it: arguments, files, commands, the serial port,
  the socket and the system log.
- `tests/` runs the library on examples.

Temperatures are integers in millidegrees Celsius, times are nanoseconds on a
clock that never goes back, and fan speeds are whole revolutions per minute.

The one function that the proofs take on trust is `String::push` of the standard
library (`src/text.rs`).

## Commands

```
lcm-status [daemon | <config>]          run the daemon
lcm-status status [config]              print the report of the daemon that runs
lcm-status check-config [config]        print the settings of a file
lcm-status fan-profile [config] [--yes] sweep the fan outputs, propose settings
lcm-status hal-test                     print what the screens would show
lcm-status init                         send the panel's start sequence
lcm-status settext <line> <text>        show a text on a line of the panel
lcm-status listen [seconds]             print what the panel sends
```
