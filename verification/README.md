# benchrs

An HTTP benchmark tool in the style of Apache Benchmark.

`src/` is the part that decides, verified with Verus: how a request is written
(`producer`), where it goes (`address`), how a response's header is read
(`parser`, `head`, `response`) and its body discarded (`body`), when connections
are made, kept and dropped (`fetcher`), what the measured times add up to
(`report`) and what the arguments mean (`options`).

Two modules state what holds however the stream is cut up into reads.
`header_laws`: a header is read to its last byte and gives the same response.
`body_laws`: a body with a given length is discarded to its last byte. Of a
chunked body every byte counts as dealt with. The line end that closes it is not
waited for: up to two bytes of it may then be unread.

`app/` is the program around it: arguments, logging, sockets, TLS and tasks. It
asks the library for the next step, carries it out and says how it went.

```
USAGE:
    benchrs [OPTIONS] <url>

ARGS:
    <url>    The url to hit

OPTIONS:
    -c <concurrency>           Sets the concurrency level
    -h, --help                 Print help information
    -H <header>...             Sets a custom header
    -k                         Enables keep alive
    -m <method>                Request method: default GET
    -n <request number>        Sets the number of requests
    -p <postfile>              File attach as request body
    -v                         Increases verbosity
    -V, --version              Print version information
```
