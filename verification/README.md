# nethawk

Packet capture and layered protocol analysis, with the decoding,
statistics and rendering logic verified in Verus.

- `src/` — the verified library:
  - `protocol/` — decoders for Ethernet (with 802.1Q), ARP, IPv4, IPv6,
    ICMP/ICMPv6, TCP, UDP, DNS, DHCP, HTTP/1.x and TLS ClientHello, and the
    routing from one layer to the next. Each decoder states exactly which
    inputs it accepts and which error it gives otherwise.
  - `tcp_stream.rs` — TCP connections keyed by their direction-independent
    endpoint pair, a SYN/FIN/RST state machine, and payload reassembly by
    sequence number.
  - `status.rs` — traffic counters by protocol class, per-session totals,
    the ranking of the busiest sessions, and the live-statistics rounds.
  - `analyse.rs` — the offline analysis modes, TLS and DHCP detection in
    frames, HTTP request counting, stream reports and HTTP export text.
  - `printer.rs` — one-line summaries, the layer-by-layer view, hex dumps
    and the fields of the JSON form.
  - `cli.rs` — the subcommand arguments and their validation.
  - `text.rs` — number and address rendering, and the few std functions
    the library relies on with stated contracts.
- `app/` — the `nethawk` program: argument parsing, logging, pcap capture
  and file reading, and terminal output.
- `tests/` — tests of the library on concrete packets and arguments.
