# PC Sharer

File sharing between computers on a local network: devices find each other by
UDP broadcast, files go over TCP from disk to disk, and interrupted transfers
are resumed.

`src/` is the library, written and proved in Verus. It holds what the
application decides and computes:

- `model`, `registry`, `order`, `text`: the records, the tables that hold them,
  sorting, and plain text.
- `target`, `units`, `frame`, `paths`, `locations`, `clipboard`, `clock`, `ids`:
  typed targets, sizes for people to read, the framing of metadata, safe paths,
  directories, images, time, ids.
- `config`, `devices`, `history`, `progress`: settings and trust, who is there,
  the list of transfers, the steps of a transfer.
- `collect`, `send`, `receive`, `resume`: which files are sent, and how a
  transfer proceeds on either side.
- `state`: the state of the application and all operations on it.
- `exchange`, `lifecycle`: what holds of sender and receiver together, and
  across several operations.

`app/` is the desktop application around the library: sockets, files, JSON, the
clipboard, the window and the tray. `tests/` runs the library on concrete
values.
