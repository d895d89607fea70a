# wmux

Terminal session persistence for Windows. Start a session, detach, close the window, reattach
later; the shell and everything running in it keep going.

The decisions of the program are a library in Verus, proved against their contracts. The program
around it talks to Windows.

| Where | What |
|---|---|
| `src/input.rs` | Console bytes into keys |
| `src/client.rs` | The detach sequence, painting, resizing, and the requests a client makes |
| `src/protocol.rs` | Frames and messages on the pipe |
| `src/escape.rs` | Where in text and escape sequences a byte of output comes, and what it does |
| `src/terminal.rs` | The terminal model, on top of the `vt100` crate |
| `src/server.rs` | A session: its model, its clients, their queues, and what it answers |
| `src/session.rs` | Session names, pipe paths, the listing |
| `src/pipe.rs`, `src/console.rs` | What to ask of pipes and consoles, and what the answers come to |
| `src/run.rs` | Commands whose result comes back through a file |
| `src/cli.rs` | The commands and what they print |
| `src/text.rs`, `src/utf8.rs`, `src/wide.rs` | Text, UTF-8 and UTF-16 |
| `app/` | The program: arguments, handles, threads, files |
| `tests/` | What runs of it |

Each module states what its functions do in `ensures`, over spec functions of the same module.
Functions named `law_..` state what holds across functions: that a message reads back as it was
written, that cuts between reads make no difference, that a client which attaches gets one copy of
the current screen and then the output behind it, that the console gets its modes back.

Output can be refused. There are bytes on which the emulator fails, mostly behind a window that got
smaller: text at a cursor that was restored below the screen, or over a wide character that the
right edge cuts; a line that wraps in a window of one row; a character with more columns than the
window. The terminal model does not take such a byte, `Session::output` says so, and the clients do
not get the chunk. All other output goes into the model and to the clients.

What is taken on trust are the calls into `vt100` and a few of the standard library; each stands in
a function or declaration of its own that says what is believed of it.
