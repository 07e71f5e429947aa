# srvpro3

The verified core of a YGOPro duel-room server, written in Verus.

- `src/` is the library. Each module states what its functions do in `requires` /
  `ensures` contracts over mathematical models (`Seq`, `Map`, spec functions), and
  Verus proves them:
  - `transport`, `heartbeat`, `decode`, `handshake`: length-prefixed framing, the UDP
    heartbeat state machine, reading client frames and the first messages of a connection;
  - `password`, `deck`, `duel`, `history`: room passwords, decks, duel records;
  - `rooms`, `room`, `session`, `seating`, `match_room`, `recorder`, `bridge`: the room
    list and its events, what a room records of its connections and duels, how client
    and engine messages are routed, seat changes, tournament seating, duel history,
    and the link between a client and the engine;
  - `messages`: chat splitting, room notices, tips and summon lines;
  - `tournament`, `api`: tournament admission, scoring and the bracket service's
    addresses;
  - `windbot`, `bot`: WindBot requests, the `/ai` command and its one-time invitations;
  - `replay`, `forge`: stored cloud replays, their decoding and their playback frames;
  - `server`, `control`: admission of new connections, random rooms, and service reloads.
  Public proof functions (`lemma_*`) state the laws that span several functions.
- `tests/` runs the library on concrete values.
- `app/` starts the services the library needs from outside: it reads the settings, starts
  the WindBot service, loads the message resources from disk and connects to the bracket
  service of a tournament. It does not run the duel engine or accept connections: the
  engine's room handlers and the network listeners are not part of it.

Calls into outside crates (base64, flate2, reqwest's URL parser, unicode-normalization,
rand, tokio's broadcast channel, ygopro-data's wire and replay formats, serde_json and
basic-toml) stand behind small trusted wrappers whose contracts
say what those crates document.
