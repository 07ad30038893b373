# qnx6

Reads the partition table of a raw disk image (GPT first, MBR with its extended boot
record chain otherwise) and the QNX6 superblock of each partition that can hold a file
system.

- `src/parser/partitions.rs`: partition tables. The `gpt` and `mbrman` crates read the
  on-disk tables; the library turns what they list into `Partition` values and proves
  how.
- `src/parser/preflight.rs`: conditions on the image bytes under which those crates return
  rather than panic, with verified checks; images that fail them are refused with an error.
- `src/parser/superblock.rs`: the superblock's fixed header and root nodes, read from
  little-endian bytes.
- `src/parser/qnx6.rs`: where a partition's superblock lies, the checks that it and the
  partition fit in the image, and the scan of every partition of a table.
- `src/text.rs`: decimal and hexadecimal rendering used by messages and summaries.
- `app/main.rs`: the command-line program (argument parsing, memory-mapping the image,
  printing).
