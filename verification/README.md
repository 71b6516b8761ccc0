# quadcontrol

Desktop control of Android and iPhone devices: device discovery through adb
and go-ios, wireless adb pairing by QR code or pairing code, a supervised
scrcpy wrapper, an iPhone session built from go-ios and WebDriverAgent with a
local MJPEG proxy, and the state the desktop interface shows.

The library in `src/` holds the decisions and is verified with Verus:

- `adb_probe`: the three read-only adb commands, and what their outputs mean
  (`adb version`, `adb devices -l`, `adb mdns services`), with the JSON report.
- `scrcpy`: device selection, scrcpy version checks, the pass-through argument
  filter and the arguments scrcpy is started with, session outcomes.
- `process`: the bounded stderr tail kept for every child process.
- `wireless`: pairing secrets and their wiping, mDNS service parsing, the QR
  scan round's state machine and its arbitration, device deduplication,
  redacted pair summaries and QR rendering.
- `ios`, `ios_session`, `wda`, `mjpeg`: go-ios version and device list
  parsing, launch options, child failure classification, WDA answers, base64,
  and the MJPEG frame bookkeeping and multipart header rules.
- `gui`: the pairing, session and iPhone status values the interface polls.
- `text`: the string model shared by the parsers.

`app/` is the program around it: process spawning and supervision, signals,
sockets, HTTP, and the command line (`probe`, `pair-qr`, `pair-code`,
`connect`, `ios-devices`, `ios-session`, and scrcpy mirroring by default).

Calls into outside crates that the library makes (getrandom, qrcode,
serde_json, and a few std functions) go through trusted items in `src/`, each
with a doc comment saying what is assumed of it.
