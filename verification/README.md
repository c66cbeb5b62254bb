# MonoMouse

Share one mouse and keyboard across the monitors of several machines. Each
machine reports its monitors; the monitors of all machines are placed in one
grid, and the cursor moves from a monitor to the one next to it in the grid,
whichever machine that monitor belongs to.

## Layout

- `src/` — the library, verified with Verus:
  - `grid`, `grid_laws`, `monitor`, `machine`, `config`: the grid of monitors,
    its edge transitions and what holds of them;
  - `protocol`, `framing`: the messages and their length-prefixed frames;
  - `server`, `client`: the decisions of the server (focus, routing, joining
    and leaving clients) and of the client (cursor tracking, edge hits);
  - `builder`: the grid editor's state and its operations;
  - `detect`, `text`: reading the output of `xrandr`, `wlr-randr` and
    `gnome-randr`, the machine id and the host name;
  - `linux_input`, `windows_input`, `input`, `platform`: portable input
    events and their platform forms, and the choice of input backends;
  - `discovery`, `clipboard`, `tls`, `ids`: the table of instances found by
    mDNS, clipboard change tracking, TLS material and identifiers.
- `tests/` — tests of the library.
- `app/` — the program: `monomouse server`, `monomouse client [host:port]`
  and `monomouse gui`, with the network, device, clipboard, mDNS and window
  work around the library.

## Collections

Two tables are kept as vectors with an invariant rather than as hash maps:

- `ServerState::clients` holds one record per connected client, with
  distinct ids (part of `ServerState::wf`). A clipboard change is sent to
  the other clients in the order of this vector, so the contracts can state
  the list of recipients exactly; the order in which a `HashMap` is walked is
  left unspecified by std, and a contract over it could only say which
  clients are reached, not in what order.
- `DiscoveryTable::entries` is keyed by the service's full name, a string.
  vstd's specifications of `HashMap` give nothing usable for a `String` key,
  so the table is a vector whose names never repeat (`DiscoveryTable::wf`);
  its view is the map from full name to host, and the order of first sight
  is kept for listing.
