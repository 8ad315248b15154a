# IoMusT

A networked music ensemble. Peers send audio to each other directly over UDP, and find each other
through a server, through a signaling server, or by addresses given by hand.

`src/` is the library: the rules by which the programs work, verified with Verus. `app/` holds the
programs themselves: sockets, threads, audio devices and JSON.

| module | what it holds |
| --- | --- |
| `addr` | socket addresses |
| `table` | tables that keep their entries in order |
| `le` | little-endian numbers |
| `wire` | the datagrams between peers |
| `outbox` | messages that are sent one after another |
| `playback` | the ring buffer between the network and the audio output |
| `peer` | the exchange of audio with connected peers |
| `output` | stream configurations, and what is played on a stream |
| `roster` | what peers know about one another |
| `messages`, `server`, `server_connection` | the server and a peer's connection to it |
| `signaling_messages`, `signaling_server`, `signaling_connection` | the same for the signaling server |
| `probe` | the two halves of the latency probe |
| `args` | the arguments of the peer program |

## Running

The first argument names the program.

    iomust iomust_peer -s SERVER_ADDR
    iomust iomust_peer -a MY_IP:MY_PORT -p PEER_IP:PEER_PORT,PEER_SAMPLE_RATE
    iomust iomust_peer SIGNALING_SERVER_ADDR
    iomust iomust_server IP:PORT
    iomust iomust_signaling_server IP:PORT
    iomust sender
    iomust receiver

Several `-p` arguments name several peers. The logging level is `INFO` unless `RUST_LOG` says
otherwise; at `TRACE`, round-trip times are printed as they are measured.
