# registers

A hierarchy of shared-memory registers, from safe single-reader single-writer
boolean registers up to an atomic multi-reader multi-writer register, following
the constructions of Herlihy and Shavit's *The Art of Multiprocessor Programming*.

- `src/` is the library, written in Verus: every construction carries a contract
  that Verus proves.
  - `stamped_values`: (stamp, value) pairs packed into one integer.
  - `safe_registers`, `safe_mrsw`: safe boolean registers; a write passes through
    random values for a while before it settles.
  - `regular_registers`: regular boolean registers (write only on change).
  - `m_regular`: M-valued regular registers in unary.
  - `atomic_srsw`, `atomic_mrsw`, `atomic_mrmw`: atomic registers built with stamps,
    the multi-reader one on a matrix of single-reader registers.
  - `app_model`: the simulator's settings, key handling and logs.
- `app/` is the terminal simulator around the library: it draws the screen, reads
  the keyboard and runs the reader and writer threads.
- `tests/` runs the library sequentially.

What a read returns depends on the writers, which share memory with it; Verus does
not see through that sharing, so the contracts state what the constructions do
with whatever a lower-level read returns, and what the writers leave behind.
