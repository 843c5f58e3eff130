# ser_file

Read, write, edit and create SER files, the raw video format written by
astronomical cameras (format description version 3, "LUCAM-RECORDER").

The library in `src/` is verified with Verus:

- `codec.rs` states the byte layout of a SER file (`ser_bytes`, `parse_ser`)
  and proves that reading undoes writing and writing undoes reading;
  `Ser::from_bytes` and `Ser::to_bytes` are proved against that layout.
- `ser.rs` holds the document (`Ser`) and its editors (`FramesMut`,
  `DatesMut`), whose contracts keep one trailer timestamp per frame exactly
  when the file's datetime is valid.
- `format.rs` holds colors, depths, pixels, frames and the frame format.
- `timestamp.rs` holds the 100 ns tick timestamps and their calendar dates
  (through `chrono`); `fixed_string.rs` the 40-byte text fields;
  `imaging.rs` images as plain values (`Image`) and their conversions to
  and from frames, the channel and depth conversions done by `image`;
  `encoding.rs` integers in either byte order and fixed-size records.
- 16-bit samples are stored in the byte order that the header states;
  `Frame::to_bytes` and `Frame::from_bytes` write and read one frame.

`app/main.rs` is the command line tool (`info`, `create`, `export`,
`validate`) around the library; it does the file I/O and turns decoded
images into `Image` values and back.
