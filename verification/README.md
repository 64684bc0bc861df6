# otterm

The output librarian: run commands through it and it keeps every byte they
print, so that "what did that migration say twenty minutes ago" is a search.

The library crate in `src/` holds everything that decides, verified with
[Verus](https://github.com/verus-lang/verus). It reads no file, starts no
process and draws nothing. The program in `app/` does that: it carries out the
file operations that the library returns, runs commands on a pty, turns keys
and ticks into calls, and puts the texts it gets back on the screen.

| Module | What it holds |
|---|---|
| `store` | records of runs, paths, the changes to the disk, what is read back |
| `store_laws`, `disk_laws` | what holds of ids, the index and logs; what a disk holds after each change |
| `capture` | a capture from its start to its record; sizes for people |
| `fleet`, `qr` | the machines of a tailnet: parsing, order, addresses, QR codes; which codes can be drawn |
| `serve`, `web` | the read-only web server: requests, routes, pages, where it listens |
| `stream`, `ws` | a capture over a WebSocket: handshake, replay, live tail, done; the frames |
| `tui::app` | the state on the screen, what each key does, what it asks for in return |
| `tui::viewer`, `tui::search` | a log in the viewer; full-text search over all logs |
| `tui::den`, `tui::clock`, `tui::ui` | statistics, spans of time, the texts of every view |
| `tui::laws` | what holds of the screen, whatever is pressed |
| `text`, `figures`, `order`, `json` | strings as sequences, rounding, stable sorting, JSON values |
| `outside` | the other crates that are called, each behind one function with what is relied on of it |

The scripts of the terminal that the watch page runs are not part of this
tree: `otterm serve` reads them from `web/` at run time, or from the directory
that `OTTERM_WEB_DIR` names.

`tests/` runs the compiled library against concrete cases, and against what the
standard library and the outside crates compute where they compute the same.
