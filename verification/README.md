# jittr

A jitter buffer for real time udp/rtp streams. Packets are sent in as the
network delivers them, are reordered in a binary heap, and come out one per
playback slot in the order of their sequence numbers. A slot whose packet was
lost plays nothing. A packet that was played or is buffered already is
discarded, and so is the first packet of a full buffer when another one comes.

The library in `src/` is verified with [Verus](https://github.com/verus-lang/verus):

- `sequence`: sequence numbers that wrap around, and their order
- `packet`: what is asked of a packet, and the form in which one is kept
- `heap`, `heap_laws`: the binary heap of packets, and what holds of it
- `loss`: the count of packets that were lost
- `state`: the state of a buffer, and the steps that it takes
- `buffer`, `buffer_laws`: the buffer itself, and what holds over its steps

The library neither waits nor reads a clock. It says what is to be done next,
and is told when that is done. `app/` does it: there the buffer is a
`futures::Sink` that packets are sent to, and a `futures::Stream` that they come
out of, with a timer between packets. What needs floating point stands there
too.
