# with_daemon

An async client-daemon abstraction framework, and `pidtree_mon`, a process monitor built on the same
plan, written in [Verus](https://github.com/verus-lang/verus).

The framework abstracts away the spawning of and connecting to a daemon that several client
processes share. The daemon is started by the first client, runs in a process of its own, keeps a
state that is common to the handlers of all its clients, and shuts down when one of them asks for
it, as soon as every handler has ended.

The monitor prints the CPU usage of process trees, as a daemon measures it for all its clients.

## Layout

- `src/` is the verified library. It decides, encodes and computes; it performs no input or output.
  Each process is a state machine that is told what has happened and says what to do next.
  - `launch`, `connect`, `serve`, `wait_token`: the framework's processes.
  - `ready`, `error`: what a daemon tells the client that started it, and what can go wrong.
  - `startup`, `monitor_daemon`, `handler`, `monitor`: the monitor's processes.
  - `protocol`, `wire`: what they exchange.
  - `config`, `output`, `text`: what the monitor's users write and read.
  - `measure`, `cumulate`, `tree`: the loads of process trees.
  - `machine`: what the state machines have in common.
- `app/` performs what the state machines ask for, with Tokio: sockets, forks, clocks, `/proc` and
  floating-point numbers. `app/lib.rs` exports the framework, and `app/main.rs` is the monitor.
- `tests/` runs the library on given values.

The properties that relate several functions are public proof functions, beside what they speak of:
among others, that a token is read back as it was sent, that connections are rejected and no client
gets a handler after a request for shutdown, that every handler has ended when the daemon ends, that
the reason for which a daemon could not start reaches the client, that the client prints one line
for each answer and waits no longer than its timeout, and that the total of a process is the sum
over its whole tree.
