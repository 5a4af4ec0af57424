# goku

An HTTP load-testing tool whose core is verified with Verus.

## Layout

- `src/` — the verified library.
  - `text.rs`: character-sequence utilities (trimming, splitting, searching,
    replacing, decimal and hex formatting, integer parsing).
  - `settings.rs`: targets (`[METHOD] <url>`), HTTP methods, authentication
    (with a base64 encoder), the settings of a run and the checks they must pass.
  - `args.rs`: command-line flags and how they become settings.
  - `headers.rs`: request headers, checked and collected in an `http` header map.
  - `execution.rs`: template variables, pseudo-random values, planning a run,
    preparing each request, the status it is recorded with, and the schedule
    each worker follows.
  - `benchmark.rs`: results, statistics, the status breakdown, the latency
    histogram and the pieces of the text report.
  - `banner.rs`: the line announcing a run.
  - `mcp.rs`: the request of the Model Context Protocol tool.
  - `basic/`: the basic configuration (one target, integer status codes).
- `tests/`: tests of the library.
- `app/`: the command-line program and the MCP server around the library —
  argument parsing, files, the network, terminal output, and the parts that
  compute in floating point.
