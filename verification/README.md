# srt-bench

The logic of a benchmark for SRT senders and receivers, verified with Verus, and a
command-line program around it.

- `src/` is the library. Everything in it is specified and proved: command lines and
  configurations, the connect limiter, the shared sender's scheduling, sweeps and
  their resumption, result files, reports and comparisons, the capacity model's
  decisions, and the qualification artifacts. `src/lib.rs` says which module holds
  what.
- `tests/` runs the library on concrete values.
- `app/` is the program: files, processes, sockets, clocks, and everything that is
  computed in floating point.

The library computes no fractions. Where a rule depends on one, it takes the number's
text or the outcome of the comparison, so that the rule itself is proved for every
value.

## What is trusted

A few items are believed rather than proved, each under a comment that says what is
claimed:

| Item | Stands for |
| --- | --- |
| the specification of `String::push` in `text` | `String::push` |
| `text::debug_quote` | `format!("{:?}")` of a string |
| `qual_payload::share` | `bytes::Bytes::from(Vec<u8>)` |
| `qual_payload::SharedBytes` | the type `bytes::Bytes` |
| `attempt::fill_random` | `getrandom::fill` |
| `attempt::RandomError` | the type `getrandom::Error` |
| `model::srt_header_size` | `shiguredo_srt::SRT_HEADER_SIZE` |
| `model::default_mtu` | `shiguredo_srt::DEFAULT_MTU` |
| `capacity_args::default_flow_window` | `shiguredo_srt::DEFAULT_FLOW_WINDOW` |
