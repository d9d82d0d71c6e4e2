# remux

The decision core of a terminal multiplexer, verified with Verus.

A server keeps sessions of tabs of panes, and clients that look at them. What the server
knows and decides is in `src/`, as functions from values to values with contracts that Verus
proves. What it does to the world (terminals, sockets, files, processes) is in `app/`, which
hands over what it read and carries out the plans that come back.

## Layout of `src/`

| modules | what they are about |
| --- | --- |
| `ratio`, `layout`, `layout_modes`, `geometry` | trees of panes, how modes build them, and where panes lie |
| `tab`, `session`, `names`, `state`, `edits`, `validity` | tabs, sessions, folders, and their changes |
| `command`, `message`, `follow_up`, `connection` | what clients ask for, and what is left to be done |
| `client`, `clients`, `mouse`, `pointer`, `selection`, `hit` | clients, their scrolling, their mouse, and what they select |
| `protocol`, `config`, `screen`, `grid`, `boxes`, `blit`, `tab_strip`, `status_bar`, `compositor`, `composed`, `render`, `frames`, `sizing` | frames: what is drawn, how large terminals are, and what is sent |
| `dormant`, `startup`, `forwarding`, `naming`, `session_tree`, `views` | saved sessions, terminals, names, and lists |
| `agents`, `lookup`, `jobs`, `detection` | which panes run coding agents, and what the agents do |
| `browse`, `paths`, `wire`, `text` | directories, paths, frames on the wire, and strings |
| `layout_laws`, `tab_laws`, `edit_laws`, `command_laws`, `order_laws` | laws that span modules |

Every type has a view, a mathematical value that the contracts speak of. A law that relates
several functions is a public proof function whose name begins with `law_`.

Two notions of order run through the server's state. A state is *sound* if every session can
be drawn and worked on; every command and message keeps it so. A state is *in order* (`wf`)
if moreover each tab's list of panes agrees with its arrangement, no pane is in two places,
and every pane id is below the next one.

Shares of a split are whole numbers of units of 2^-40, rounded as single-precision numbers
are, so that no floating point is needed.

What the proofs rest on is little: pushing a character onto a string, lower case, the quoted
form of a string, regular expressions (`regex`), and two directories of the system (`dirs`).
Each is a small function with a doc comment that says what is believed of it.
