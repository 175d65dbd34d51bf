# gdb_remote_protocol

The server side of the GDB Remote Serial Protocol, written in Verus.

A server implements the `Handler` trait and hands it to `process_packets_from`,
together with a reader and a writer.

## Layout

* `src/outcome.rs`, `src/combine.rs`: what a parser may come back with, and the
  building blocks that parsers are made of.
* `src/model.rs`, `src/hex.rs`, `src/text.rs`: commands and what they speak of,
  hexadecimal numbers, names of features.
* `src/grammar.rs`: what each kind of packet is, as a mathematical function of
  its bytes.
* `src/scan.rs`, `src/parse.rs`: the parsers. Those in `scan` are defined on every
  input; those in `parse` are what callers use.
* `src/handler.rs`, `src/response.rs`, `src/writer.rs`, `src/server.rs`: the
  handler, its answers, the packets that carry them, and the server.
* `src/laws.rs`, `src/defined.rs`, `src/requests.rs`, `src/queries.rs`,
  `src/lists.rs`, `src/replies.rs`, `src/sessions.rs`: what holds of the protocol
  engine as a whole. For each command one way to write it is given, with
  lower-case digits and full thread ids, and a command that is valid is read back
  from it. An answer is read back as it was given; one that is a text has to be
  free of `#`. A session sends what is owed for each packet that it reads,
  wherever its input is cut into reads, as long as each read has a whole packet
  at its front. The loop takes nothing from a buffer that holds only a part of
  one, and stays in front of it.
* `app/`: the loop that reads packets and writes answers.
