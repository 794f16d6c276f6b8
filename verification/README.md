# zergling

A small blob store in the style of SeaweedFS, written in Verus: volume servers keep
needles (blobs with their metadata) in append-only volume files, and a directory
server keeps the topology of data centers, racks and nodes, grows volumes and hands
out file ids.

- `src/` is the verified library. `storage` holds the needle record format, the
  needle index, volumes, stores, what a volume server decides for each request, and
  how an upload's multipart body and a read's answer are made;
  `directory` holds the topology, volume layouts, volume growth, the key sequencer and
  what the directory server decides for each request; `operation`, `pb` and `client`
  hold the messages exchanged; `text` holds number and text conversions.
- `app/` is the `zergling` command: argument handling, the HTTP front ends, file I/O
  and the heartbeat connection, all calling into the library.
- `tests/` exercises the library on concrete values.
