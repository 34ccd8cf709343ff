# cpu_miner_sv2

A Stratum V2 mining client that hashes on the CPU, meant as a protocol testing tool. The
decisions it takes are verified with Verus; the program around them is ordinary Rust.

- `src/` — the verified library:
  - `config` — the settings the miner reads and their validation;
  - `client` — the SetupConnection flags offered and the replies accepted;
  - `channel_manager` — channel and group state of a connection, and where each mining
    message goes (with the laws that hold across its operations);
  - `group` — the group channels of `channels_sv2`, behind trusted wrappers;
  - `miner` — which header a miner task hashes next, whether a hash is a share, CPU
    throttling, and the laws of a mining run;
  - `format` — hashrates rendered with digit separators.
- `app/` — the program: configuration loading, the Noise connection, the message handler
  traits of `handlers_sv2`, the miner tasks and the hashrate measurement.
- `tests/` — tests of the library on concrete values.
