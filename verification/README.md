# vpn_server

The verified core of a VPN control and proxy server, written in Verus.

`src/` is the library; every function in it is proved against its contract:

- `traffic` and `upload`, with `chunking`: the proxy's queue of node traffic
  batches, the upload plan (every queued record is carried exactly once, in
  commands of bounded size, taken round-robin over the batches), the
  dispatch that sends each planned command once with a bounded number in
  flight, and how the control server's answers settle the queue.
- `proxy_info`, `proxy_select` and `proxy_manager`: what a proxy announces,
  what the control plane learns from its heartbeats and control connection,
  how long a remote proxy stays live, which proxies clients may use, and how
  the proxy for a network is chosen.
- `server_config`: the configuration's keys, defaults and checks, the
  proxy's transport mode (`pn.transport`: tcp, quic or dual) and the
  endpoints it gives.
- `store`, `accounts`, `management`, `control`: stored names and integer
  ranges, transaction states, what a node traffic report does (duplicates
  within the retention window, totals), traffic speeds kept for the cache's
  time to live, management passwords,
  who a management request comes from and what it may touch, relay
  admission and the proxy control channel.
- `text`, `order`, `identity`: decimal rendering, trimming and parsing of
  text, three-way comparison, node identities.

`tests/` exercises the library on concrete values. `app/` is the program
around it: command line, configuration files and environment, address
discovery, and the background tasks that collect, upload and drain traffic
and expire remote proxies.
