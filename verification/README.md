# braidinfer_runtime

The planning core of a GPU inference runtime, written in Verus. The library decides
what a model does on its devices and proves that the decisions are right; `app/`
carries them out.

- `src/paged_kv` — KV chunk geometry, slot pools, shared chunks, sequences and
  recurrent-state checkpoints.
- `src/moe_weights`, `src/moe_p2p` — where expert weights come from, how they are
  spread over GPUs, and the tables that expert kernels read.
- `src/multi_gpu` — workers, peer access, attention shares and the broadcast of a
  prompt's KV chunks.
- `src/per_batch_dispatch` — batches of instructions per GPU and waiting for them.
- `src/op_profile`, `src/mtype_audit` — operation counters and the memory-type audit.
- `src/model` — the load plan of a model and the instruction streams of its forward
  passes, prompts and decode steps. `moe_meaning` and `moe_token` say what the operations
  of an expert layer compute; `moe_grouping` and `moe_spreading` prove that a batch
  grouped by expert, or spread over GPUs, computes the same as its tokens one by one.
- `src/text`, `src/json`, `src/model/load/paths` — the calls into `str`, `serde_json`
  and `std::path`, each behind a declared contract.

Activations and weights are floating point and stay on the devices. Plans name them by
buffer and offset, and carry scale factors as `f32` bit patterns.

Properties that relate several functions are proof functions named `law_*`, beside the
definitions they speak of. `tests/` runs the library on concrete values.
