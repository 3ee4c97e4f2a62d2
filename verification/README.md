# crossterm

Terminal input, verified with Verus: decoding the bytes of a terminal into events, keeping and
discarding them, reading them through filters, and asking the terminal for its default colors.

- `src/event/parse` decodes one key or control sequence.
- `src/event/source` turns a stream of bytes, or of console records, into a queue of events. The
  sources never wait or read by themselves: each method returns a request, and for each request
  there is a method that takes the answer.
- `src/event/read.rs` picks events from a source and keeps those that were not asked for;
  `src/event/filter.rs` holds the filters.
- `src/event/stream_color.rs` finds the reports of default colors among events and inside pastes.
- `src/style` asks for the default colors.
- `src/time.rs` holds the clock, timeouts and deadlines, in nanoseconds.

The files and functions named after laws state what holds of several operations together.

`app` carries the requests out on real descriptors, signals, consoles and streams.
