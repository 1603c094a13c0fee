# Transport benchmark

Compares HTTP/2 over TLS with HTTP/3 over QUIC under request payloads of a corpus or
of a given size, and measures what it costs a QUIC server to turn requests away by a
response or by resetting the stream.

- `src/` is a Verus library: command lines, the order of runs, pacing, the
  bookkeeping of clients and servers, latency figures, reports. Every function states
  what it returns, and the `law_...` functions state what holds across functions.
- `app/` is the program around it: sockets, TLS, QUIC, child processes, files, and
  the arithmetic on floating-point figures that reports print.
- `tests/` runs the library.

Times are nanoseconds, in `u128`. Figures with a fraction enter the library as the
text that a report prints or as the bits of the number.

What is taken on trust: `String::push`, `format!("{:?}")` of a string and
`sort_unstable` of std, and the JSON parser that takes a corpus apart.
