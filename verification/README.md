# naqix_remote_support

The verified core of the Naqix remote-support spikes, written in Verus.

- `src/` is the library. Its functions are proved against their contracts,
  except the small wrappers that call `bytes`, `PathBuf` and std string
  operations, whose contracts are stated and trusted:
  - `annexb` splits an Annex-B H.264 stream into access units (whole
    pictures, keyframe flag), with the laws of that splitting;
  - `desktop`, `launch`, `log`, `helper`, `service` hold the decisions of the
    session-0 capture probe: desktop names, which token and desktop a helper
    starts with, its command line, log lines, frame throttling and naming,
    and the supervisor that keeps a helper on the desktop that has input;
  - `encoder` and `spike` hold the hardware encoder's input bookkeeping, the
    packing of Media Foundation ratios, the run's bitrate/keyframe schedule and
    its tallies;
  - `signalling` reads the browser's offer out of an HTTP request and frames
    the replies;
  - `text` holds UTF-16, decimal and string helpers, most of them calls into
    std with stated contracts.
- `tests/` exercises the library on concrete values.
- `app/` is the program around it: Windows sessions, desktops, services,
  capture and Media Foundation, WebRTC, sockets and files.
