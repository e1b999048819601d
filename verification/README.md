# openinfer

The decision-making core of an LLM inference engine, verified with Verus, and the
thin shell of I/O, devices and threads around it.

- `src/` is the library. It decides and computes; it opens no file, socket or
  device. Contracts say what its functions return, and Verus proves them; what
  another thread or an outside service decides is left open.
  - `engine`, `metrics`, `load`: requests, token events, and what a scheduler
    publishes about itself.
  - `tracing`: the root span of a request, and the context its phases hang from.
  - `scheduler`: admission, prefill chunking, prefetches, the loop's phases, the
    spans of traced requests, and what holds over a whole run.
  - `bridge`: from token events to the frontend's outputs, request by request.
  - `tp`: the dispatcher and the workers of a tensor-parallel runtime.
  - `eagle3`, `decode`: draft trees, draft caches and the metadata of batched
    decode.
  - `deepseek`: recognising a model's configuration and routing its experts.
  - `toolkit`: locating a CUDA toolkit from what the file system holds.
  - `bench`: measurements, summaries and reports of the serving benchmark.
- `app/` drives the library: the command line, files, sockets, threads, the
  device and floating-point figures.
- `tests/` runs the library.

Numbers that the outside world has as floats enter the library as bit patterns or
as finished texts. What happens on a device is a list of operations that the
library plans and the application carries out.

Functions marked `external_body` hand a call to another crate. What their
contracts claim of it is believed, not proved; each says which call it is.
