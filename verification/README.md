# broker

An MQTT 3.1.1 broker and its clients, with the logic verified by Verus.

- `src/` is the library. `hub` holds what clients connect to: sessions, their timers and the local
  router. `store` holds what hubs share: the global router and the retained messages. `client` and
  `mqttc` are the two clients. `wire` gives the byte format as mathematics, `codec` and `buffer`
  hold the calls into other crates whose behaviour is taken on trust, and `route`, `routes` and
  `peers` are the subscription tree.
- Every message to a part of the broker is a call that changes that part's state and returns what is
  to be sent. What goes wrong beyond repair is returned as a fault.
- The laws of the library are public proof functions whose names begin with `law_`; most stand in
  `wire_laws`, `hub/session_laws`, `hub/router_laws`, `routes` and `store/global_retain`.
- `app/` runs the library: threads, sockets, TLS, serialization and the terminal.
