# p2p_chat

A small peer-to-peer chat over TCP, with its logic verified by Verus.

- `src/` is the verified library: the commands read from the prompt (`command`), the
  contact list sorted and searched by address (`contact`), the wire protocol between
  peers and the decisions a peer takes on what it reads (`protocol`, `reader`, `echo`),
  the text of notices (`notice`), where received files are saved (`save`), and the text
  helpers they rest on (`text`, `number`).
- `app/` holds the programs: sockets, threads, files and the terminal.
- `tests/` runs the library on concrete values.
