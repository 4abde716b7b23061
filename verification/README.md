# tunnel

A TCP tunnel through a relay server. Outside users send HTTP requests to the
relay; the relay routes each request, by the host it names, to the local client
that has bound that host; the client opens one connection per user to a local
service and carries the answers back.

`src/` is the library, verified with Verus: the frame format and its codec
(`wire`, `packet`, `proto`), the stream readers that the relay and the client
run on their sockets (`frame`, `http`), and their routing decisions (`table`,
`route`, `session`). The calls into `bincode` stand behind the trusted wrappers
of `codec`, whose contracts state the wire format.

`app/` is the program around it: `tunnel server ...` runs the relay and
`tunnel client ...` the local client. It does the socket I/O and the task
plumbing with tokio, and carries out what the library decides.
