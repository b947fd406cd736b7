# moe_infer

Inference for a mixture-of-experts language model whose layers alternate between gated linear
attention and full attention, with 4-bit weights. The library is written in Verus: its functions
state what they compute, and Verus proves it. Two outside calls are taken on trust: random bits,
of which nothing is claimed, and the quoted form of a text.

## Layout

- `src/` is the verified library.
  - `scalar` is the interface to numbers. The layers are written for any type with its operations;
    contracts say which operations are applied to which operands, in which order.
  - `quant`, `math_util`, `rope`, `attention_math`, `stored`, `delta_net` and `routing` are
    the mathematics of a layer; `linear_attention`, `full_attention`, `cpu_forward`, `cpu_layer` and
    `engine::cpu` put layers together on the CPU; `engine::cpu_engine` runs whole models, and
    `engine::session` makes them an engine that tokens can be generated with.
  - `command` and `kernels` record work for a compute device; `linear_program`, `moe_program`,
    `expert`, `gpu_ops` and `full_forward` record layers. `linear_forward`, `mixed_attention` and
    `gpu_forward` divide a layer between CPU and device, and `schedule`, `token_run`, `pipeline` and
    `engine::fused` plan tokens. `phase` says in which order commands may stand.
  - `lru`, `expert_cache`, `expert_fetch`, `expert_io` and `io_pool` keep experts in memory and read
    the missing ones; `cache` is the state of a sequence.
  - `sample` and `generate` choose tokens; `config`, `run_config`, `types`, `constants` and `engine`
    describe models.
- `tests/` runs the library on concrete values, with single precision as the scalar.
- `app/` is a command line tool: files, threads, clocks, and a device in software.

Laws that relate several functions are public proof functions whose names begin with `law_`.
