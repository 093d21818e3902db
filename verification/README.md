# whichway

A macOS network route inspector for machines running several VPN, proxy and
monitoring tools at once: given everything on the machine, where does traffic
to a host actually go?

## Layout

- `src/` — the verified library (Verus). It parses the output of `netstat`,
  `ifconfig`, `scutil --dns`, `scutil --nwi`, `route get`, `lsof`, `nettop`
  and `pfctl`; attributes `utun` interfaces to Tailscale, Zscaler and
  Atmos / Axis; picks the DNS resolver for a host; assembles the summary and
  the focused lookup; stamps times in RFC3339; and decides the web UI's
  token, page injection, asset paths and content types. Every public
  function states its result in its contract, and the laws of the library
  (detector priority, resolver choice, section outcomes, the calendar
  round trip, the token check) are proof functions.
- `app/` — the program around it: command-line parsing, running the
  commands with timeouts, table and colour output, JSON output, and the
  local HTTP server. The UI assets are read from `./assets` with
  `serve --dev`.
- `tests/` — tests of the library on concrete command outputs.
