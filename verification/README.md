# flux

The host side of a remote desktop: it captures a display, encodes it, and
streams it to a relay that hands it on to browsers.

`src/` is a library verified with Verus. It holds what the host computes and
decides:

- `encode`: colour conversion and scaling, the parameters and the sessions of the
  NVENC, AMF, VA-API, FFmpeg and Vulkan Video encoders, H.264 parameter sets,
  keyframe detection;
- `transport`: RTP headers, parity packets and the rebuilding of lost packets from
  them (over finite fields), splitting frames into packets and putting them
  together again;
- `input`: keyboard, mouse and gamepad events, and what they become on the host;
- `protocol`: messages and the negotiation of a session;
- `server`: the wire format of the relay, the sending of frames, the capture loop,
  displays and their topology, privacy, registration, sessions, the tray;
- `junit`: JUnit reports out of `go test -json`.

Contracts are stated over mathematical values: sequences of bytes and characters,
integers, and a view of each type that holds a vector or a string. Properties that
span several functions are public proof functions whose names begin with `law_`.

The library calls `bytes`, `quick-junit`, `uuid` and `reqwest::Url` behind a few
functions whose contracts are believed; their doc comments say what is claimed.

`app/` is ordinary Rust around the library: sockets, files, drivers, the desktop
portal, and everything that computes with floating-point numbers.
`tests/` runs the library on concrete values.
