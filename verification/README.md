# voicebox

A push-to-talk voice assistant for an ESP32-S3 with a round display: tap, speak,
and hear the answer of any OpenAI-compatible service, captioned on screen.

`src/` is the device's logic as a verified library: every item in it is checked
by Verus against the contract that stands above it. `app/` is the firmware around
it, which drives the hardware and the network. `tests/` runs the library.

| Modules | What they do |
| --- | --- |
| `text`, `bytes`, `crc` | strings, byte strings and checksums |
| `settings` | what is configured, and its record in flash |
| `form`, `http`, `portal` | the setup portal: page, web server, names, addresses |
| `wrap`, `ui`, `scene`, `draw`, `bezel`, `diff`, `frames` | what is shown, from state to pixels to what is sent |
| `touch`, `screens` | gestures, cards and what they lead to |
| `vad`, `pcm`, `wav`, `tone` | recording, audio formats, the test tone |
| `chat`, `reply`, `speech` | the conversation, streamed replies, text to be read out |
| `captions`, `playback` | reading a reply out while it arrives |
| `pins` | the board's wiring |

Where the library relies on another crate, the call stands in a small function
marked `external_body`, whose contract says what is relied on: rasterising shapes
and glyphs (`draw`), JSON (`reply`), DNS and DHCP packets (`portal`), UTF-8
(`text`). Arcs are drawn by `app/panel.rs`, because their angles are floating
point.

Public proof functions state what holds of the library as a whole, such as
`record_reads_back`, `panel_shows_the_frame` or `the_whole_clip_is_played`.
