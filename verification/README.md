# netscope

A packet capture analyser: it dissects Ethernet, IP, TCP, UDP, DNS, DHCP, HTTP,
TLS and friends into labelled trees, filters frames with display filters, and
rebuilds conversations.

- `src/` is the library, verified with Verus. Each executable function is
  proved against a contract over mathematical models of its data.
  - `dissect/`: the layers, the tree of fields, reassembly and stream tracking
    - `ranges/`: every row lies in the data source it names, and none gives a
      verdict on a checksum that nobody asked to verify
    - `nesting/`: every row lies in the row it stands under
    - `reporting/`: settings change what is reported and nothing else
    - `labels.rs`: no row is shown without a label
  - `filter/`: the display filter language
  - `pcap/`, `pcapng/`: the two capture file formats
  - `store/`: the frame ring and what is computed from it
- `app/` is the command line around it: files, threads and floating point.
- `tests/` run the library on captures built byte by byte.
