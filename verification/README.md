# monitaur

Local-first infrastructure intelligence: what runs on the machine, what is
exposed to the network, how services talk to each other and where the
security risks are.

The logic is a library verified with Verus (`src/`):

- `discovery` — containers, ports and networks turned into a service graph
- `procnet` — the kernel's TCP socket tables (`/proc/net/tcp`, `tcp6`)
- `network` — traffic classification, flows, attribution to containers
- `dns` — name servers and host mappings from the resolver files
- `security` — exposed sensitive ports, secrets in labels, secure-port reachability
- `topology`, `clustering`, `graph`, `visualization` — the layered drawing
- `metadata` — cache, service index and bounded snapshot histories
- `history` — metrics history assembled from joined query rows
- `auth` — admin setup, login and the bearer-token gate
- `monitoring`, `models`, `error`, `text` — shared types and helpers

Each public function states what it returns in its contract; the laws of
the library (no duplicate edges after de-duplication, every drawn edge joins
drawn nodes, socket tables yield only live connections, a set-up password
logs in, ...) are public proof functions next to the code they are about.

`app/` is the program around the library: the Docker daemon (bollard), host
files, live metrics (sysinfo), SQLite persistence (rusqlite) and the REST API
(axum). Run `monitaur` for a one-shot scan or `monitaur serve --port 8080
[--auth]` for the API.
