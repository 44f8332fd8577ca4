# wgprobe

A userspace WireGuard probe and a finder of working VPN servers. The probe
answers one question: can this identity authenticate with this endpoint? It
creates no network interface and changes no routes.

The library in `src/` decides; it is verified with Verus. It holds packets,
configurations, plans, the course of a handshake and of data checks, reports,
the inventory of servers, scheduling, exports, and the state of the interactive
screens. What it decides is stated in the contracts of its functions over
mathematical models, and what holds across functions is stated in public proof
functions.

The programs in `app/` act: they open sockets, read and write files, fetch the
inventory, start threads and draw. They hand the library what happened, and
carry out what it asks for.

| Module | Holds |
| --- | --- |
| `text`, `net`, `time`, `order`, `unicode` | text, addresses, times and sorting |
| `keys`, `config`, `identity`, `credentials` | keys and configurations |
| `packet`, `engine`, `tunnel`, `session` | packets, the protocol engine, handshakes and data checks |
| `probe`, `report`, `resolver`, `verdict`, `progress` | the course of a probe and its report |
| `inventory`, `cache`, `scheduler`, `probing` | servers, and which are probed when |
| `finder`, `commands`, `console`, `bindings` | the command lines and the language bindings |
| `export`, `paths` | exported configurations and their directories |
| `app`, `input`, `ui` | the interactive screens |

The protocol itself is boringtun's, base64 and key derivation come from their
own crates, and the library trusts them as the doc comments of `keys`, `engine`
and `unicode` say.
