# p2p_probe

Can two hosts behind NAT reach each other? One of them listens: it finds a relay among the peers
of a DHT, reserves a slot on it and writes down where it can be reached. The other dials it through
the relay and reports whether its pings ran over a relayed or a direct connection.

`src/` holds every decision of the two runs, verified with Verus:

| module | what it decides |
|---|---|
| `peer`, `multiaddr`, `ip` | peers and addresses: which peer an address names, whether it is public, whether it is relayed |
| `bootstrap` | the addresses that a run starts from |
| `event`, `clock` | what the network reports, and when |
| `discovery` | the listener's search for a relay |
| `rendezvous` | what the listener tells the dialer |
| `watch` | the listener's wait for the dialer |
| `learn`, `dial` | the dialer's run |
| `discovery_laws`, `dial_laws` | what holds of every run, whatever the network reports |

A run is a state machine. Its `step` takes in a report and says what to do next, and its contract
equates the new state and the action with a function of the old state, the report and the time.
The laws are proved of sequences of such steps.

`app/` is the program: it drives the two machines with a libp2p swarm.

The text and raw forms of peers and addresses, and the name of the relay protocol, come from libp2p
through the functions whose names begin with `outside_`. Their contracts are believed, not proved.
