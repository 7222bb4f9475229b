# mp4_bmff

Reading and writing the boxes of the ISO Base Media File Format (MP4),
verified with Verus.

Every box type has a view that borrows its bytes and an owned form. Each
decoder states exactly which payloads it accepts and what it reads from them;
each encoder states the bytes it writes; for the boxes with a fixed layout a
proof function states that decoding what was encoded gives the value back.

Layout:

- `src/bytes.rs`, `src/cursor.rs`: big-endian integers as byte sequences, a
  read cursor and the writers into a buffer.
- `src/rawbox.rs`, `src/children.rs`: box headers, iteration over the boxes
  in a byte range and lookup of child boxes.
- `src/codec.rs`: the decode/encode traits and whole-box writing.
- `src/boxes/`: one module per box type, the sample entries and the AVC
  sample entries.
- `src/formats/mpeg4/`: MPEG-4 descriptors and the AVC decoder configuration
  record.
- `app/`: the parts that need I/O (a box reader over `std::io`) or floating
  point (downmix gains in dB).
