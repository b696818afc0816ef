# pwatch

Hardware watchpoints on running processes, served over HTTP: make a breakpoint
on an address or on `module+offset`, list the breakpoints, read the hits with
their registers and back traces, look at processes and their memory maps.

## Layout

`src/` is a Verus library. It holds the logic, with contracts that Verus proves,
and does no input or output of its own.

| Module | Content |
| --- | --- |
| `text`, `number` | characters, words, lines, prefixes; numbers of base ten and sixteen |
| `maps` | regions of a `/proc/<pid>/maps` file, and the region of an address |
| `expression` | address expressions such as `0x7f00` and `libc.so.6+0x1f0` |
| `cache` | a cache of maps for one second, and the lookups that go through it |
| `watch` | descriptions of watchpoints, and what becomes of installing one |
| `perf`, `hit` | samples, and the hits made from them |
| `processes` | processes from the files under `/proc`, and queries for them |
| `breakpoints` | the steps that make a breakpoint, and the set of breakpoints |
| `server` | the buffer of recent hits, and the answers of the interface |

Where a file has to be read or a watchpoint installed, a function of the library
returns a step that says what is wanted, and another one takes the outcome.

`app/` is the server around the library: sockets, files, clocks, tasks and JSON.
What depends on the machine (opening performance events, filters on registers,
register names) comes in through the trait `Platform`.

`tests/` runs the library on concrete values.

## Laws

The public proof functions whose names begin with `law_` state what holds across
functions: an address that was written reads back as itself, a lookup ends after
two reads, a buffer holds the last hits, removing a breakpoint undoes making it.
