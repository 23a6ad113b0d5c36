# siliceo_motor

The core of a CPU inference engine for language models, verified with Verus: from
the bytes of a GGUF file to the answers of an OpenAI-compatible server.

- `src/` is the library. Every function is proved against its contract: the GGUF
  reader and the unpacking of quantized weights, the byte-level BPE tokenizer, chat
  templates, sampling and the generation loop, the key/value cache, JSON, layered
  configuration, HTTP and the endpoints. Modules named `*_laws`, and the sections
  called "laws", state what holds across functions.
- `app/` is the server around it: files, sockets, threads and the forward pass.
- `tests/` runs the library on concrete values.

Floating-point numbers are bit patterns throughout the library. Numerals are read to
the nearest double and written as the shortest decimal that reads back; quantized
weights and the sums of the sampler are exact up to one rounding.

The library trusts a few declarations about the standard library and `fancy-regex`;
each carries a comment that says what is taken for granted.
