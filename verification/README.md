# new-p2p-crawler

Maps the reachable Bitcoin mainnet peer-to-peer network. A crawl starts from DNS seeds,
shakes hands with each node, asks it for the peers it knows, and repeats until the frontier
is exhausted. It reaches IPv4, IPv6, CJDNS, Tor and I2P, and writes plain result files.

The logic is a library verified with Verus; the program around it is ordinary Rust.

- `src/` - the library. Functions state what they return or change, and are proved to. Of the
  clock and of random numbers only what holds of every outcome is stated.
  - `text`, `lexical`, `listing`, `csv_text`: characters, numerals, order, records
  - `ip`, `encoding`, `address`: address texts, base32 and digests, classification
  - `wire`, `protocol`: integers, CompactSize, messages
  - `transport`, `dialogue`: envelopes over a byte stream, SOCKS5 and SAM, the handshake and
    the collection of addresses
  - `store`, `crawler`: the node store, the books of a crawl and every step of it
  - `settings`, `dns`, `preflight`, `probe`, `addrlog`: the command line, seeding, network
    probes, direct probing, the observation log
  - `output`, `document`, `report`: tables, statistics, and the files that hold them
  - `*_laws`: what holds across functions
- `tests/` - the library on concrete values.
- `app/` - sockets, files, the command line, the worker pools. Called under the name `probe`
  it connects to an explicit list of nodes and reports on each.

The books of a crawl keep, between any two steps: the counter of outstanding work is the
number of addresses that are queued or in hand; no address is stored twice; neither the
address budget nor the node limit is exceeded; a reachable node has its handshake, an
unreachable one never connected, and every failed one carries its reason.

What is taken on trust is marked `external_body` or `assume_specification`, with a comment
that says what is claimed of which outside function.
