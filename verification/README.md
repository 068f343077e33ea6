# machine_chips

Verified models of three chips of the SP1 RISC-V machine, written in Verus:

- `memory_local`: the local memory chip (four accesses per row, each received
  before and sent after the shard, in both interaction scopes);
- `keccak`: the Keccak permutation chip's trace population (24 round rows per
  event, memory reads on the first row and writes on the last);
- `uint256`: the 256-bit modular multiplication chip's constraint program.

`air` describes constraint programs as data and gives primitive assertions
their meaning over concrete BabyBear rows (`field`). It also writes down what the
is-zero, emulated field and less-than gadgets establish about a row
(`gadget_holds`); those relations are not derived from the gadgets' own
constraints, so the laws that rest on them, such as the multiplication chip
writing `(x * y) % m` over `x`, take them as hypotheses. `memory_access` lays out
memory access columns and the byte lookups they request; `record` holds what a
chip reads of a shard to decide whether it takes part in it.

`app/` connects the models to the proving stack: conversions from the executor's
records and events, an AIR impl that replays the local memory chip's program on
a real builder (the multiplication chip's gadget calls need the machine's own
operation modules, so its AIR impl gives only the width), and Keccak trace
population over BabyBear field elements.
