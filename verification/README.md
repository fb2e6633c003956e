# sockpipe

A SOCKS5 proxy whose connections travel through one TCP pipe: the `socks`
command accepts SOCKS5 clients and sends their traffic down the pipe, the
`gw` command dials the pipe, opens the connections the clients asked for,
and sends the traffic back.

- `src/` is the verified library (Verus): the pipe's frame format
  (`wire`), the byte orders and the calls into `byteorder` (`codec`),
  UTF-8 and decimal text (`text`), the SOCKS5 greeting and request grammar
  and connection ids (`socks`), the per-message decisions of both ends
  (`relay`), and the table of open connections (`registry`).
- `app/` is the program: the tokio tasks, sockets and channels, and the
  command line.
- `tests/` runs the library on concrete frames and requests.
