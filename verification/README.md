# rproxy

A TCP/UDP reverse proxy whose decisions are proved with Verus.

- `src/` is the verified library: `host:port` text (`text`), the commands and
  the control state (`command`), the control server's plan for each command
  (`api`), what a proxy keeps of a lookup of its remote address (`dns`), the
  TCP and UDP proxies (`tcp`, `udp`) and the table of UDP client tunnels
  (`tunnel`).
- `app/` is the program around it: options, logging, sockets, timers, the
  JSON form of the commands, and the tasks that copy bytes.
- `tests/` runs the library on concrete values.

Start it, then ask the control server for a proxy:

```shell
rproxy -a 127.0.0.1 -p 8080 -t 127.0.0.2 -u 127.0.0.3
nc 127.0.0.1 8080
{"property":"UP","listen_addr":"192.168.1.1","listen_port":8888,"remote_addr":"192.168.1.2","remote_port":8080,"protocol":"TCP"}
```

A proxy's control port (the control address at the proxy's listening port)
takes `{"property": "STOP"}` to stop the proxy, and
`{"property": "UPDATE", "parameter": "192.168.1.3:8081"}` or
`{"property": "STOP", "parameter": "192.168.1.3:8081"}` to change its remote
address.
