# aegis_harness

The host side of the Aegis FPGA tools, verified with Verus:

- a JTAG test access port that stands in for silicon, and the remote_bitbang
  byte protocol through which OpenOCD talks to it;
- the rules of the simulation bench: how pads are numbered and named, what
  drives them in each cycle, and what goes into the waveform.

| Module     | Holds                                                        |
|------------|--------------------------------------------------------------|
| `bits`     | bit sequences, their values, packing into octets             |
| `states`   | the sixteen controller states of IEEE 1149.1                 |
| `jtag`     | the TAP                                                      |
| `scan`     | what register scans do to a TAP                              |
| `rbb`      | remote_bitbang: configuration and protocol                   |
| `session`  | what the server does next, with a client and between clients |
| `wire`     | scans as a client sends them                                 |
| `number`   | numerals in text                                             |
| `outcome`  | lists of outcomes with fatal and other faults                |
| `pins`     | pad numbers, pin names, monitored and active pads            |
| `stimulus` | pins that are held high for a range of cycles, and the clock |
| `waveform` | signal names, identifiers and the entries of a cycle         |

Each executable function states in its contract what it returns. What holds
across functions is stated by the proof functions whose names begin with
`law_`.

`app/` is the command line program: sockets, files and the loop that drives the
fabric simulator. The simulator, its waveform writer and the device descriptor
come from the crates `aegis_sim` and `aegis_ip`; only `app/fabric.rs` and
`app/bench.rs` need them.
