# Aggligator

Aggligator takes multiple network links between two endpoints and combines them into one
connection that has the combined bandwidth of all links. It provides resiliency against failure
of individual links and allows adding and removing of links on-the-fly.

## Layout

- `src/` is the library, verified with Verus. It holds the messages and their encoding, the
  integrity codec, the establishment of links and the state of a connection with all decisions:
  what is sent over which link and when, what is resent, which links are tested, limited or
  removed, what is handed to the user and how a connection ends.
- `app/` performs these decisions on top of Tokio: it sends and receives over the links, waits
  for events and timeouts and provides the channels to the user.
- `tests/` runs the library; `tests/simulation.rs` lets two endpoints exchange data over
  simulated links.

## Modules of the library

| Module           | Content                                                            |
|------------------|--------------------------------------------------------------------|
| `seq`            | wrapping sequence numbers and their order                          |
| `buf`, `text`    | byte buffers, big-endian numbers and texts                         |
| `time`           | points in time and durations                                       |
| `cfg`            | configuration of connections and links                             |
| `id`, `key`      | identifiers and the keys by which they are encrypted               |
| `msg`            | messages exchanged over a link                                     |
| `io::codec`      | frames with checksums for stream-based links                       |
| `connect`        | establishment of links and routing of incoming links               |
| `control`        | statistics and reasons for disconnection                           |
| `alc`            | sending and receiving ends of a connection                         |
| `peekable_mpsc`  | receiving end of a queue that allows peeking at the next message   |
| `agg::tx`, `rx`  | buffers of sent and received reliable messages                     |
| `agg::link_int`  | state of a link                                                    |
| `agg::state`     | state of a connection and its invariant                            |
| `agg::round`     | decisions made before waiting for the next event                   |
| `agg::events`    | handling of events                                                 |
| `agg::laws`      | what holds of connections as a whole                               |
| `agg::stream`    | what is sent                                                       |
| `agg::delivery`  | what the user receives                                             |
| `agg::account`   | what is counted for flow control                                   |
| `agg::wire`      | what is handed to the links                                        |
| `agg::effect`    | what events do to the exchange with the users                      |
| `agg::written`   | the data of the user within the messages that are sent             |
| `agg::flow`      | what is reported as consumed                                       |
| `agg::ends`      | what holds of both endpoints of a connection together              |

Each public function states what it returns or changes as a function of the mathematical model of
its arguments. The laws relate them. The most important ones speak of every run of a connection, from
two new endpoints on, in which users write and read, links are added, operated and fail and events
occur at both endpoints:

- What one user has read is the beginning of what the other has written, and all of it once that user
  has read to the end (`law_delivery_between_endpoints`).
- After a graceful end of both endpoints nothing is left behind and no error is reported
  (`law_graceful_end_between_endpoints`).
- No receive buffer overflows (`law_no_overflow_in_runs`).

They assume that what is received over a link has been sent over one, that what is acknowledged has been
received, that nothing arrives so late that its sequence number has come around again, and that a new link
tells the size of the receive buffer of the other endpoint. That connections hand nothing else to their
links is `law_only_stream_is_sent`.

The clock, the transport of the links and the queues of the user belong to the owner of a
connection, which calls `begin_round`, waits until something happens and reports it by
`handle_event`.
