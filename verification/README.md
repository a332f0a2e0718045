# loqng

Speech from a bank of coded units, with contracts that Verus proves.

* `src/data` reads the files of a voice: descriptors, lexicons, pronunciation
  lists, automata, the unit database and the bank's header.
* `src/codec` decodes the bank: a two-band CELP decoder in fixed point, with
  random access to samples and joins between units.
* `src/gen` turns broad phones into narrow ones, by rules and by laying a phrase
  out for a compiled routine.
* `src/xrt` is the machine that compiled routines run on: registers, flags,
  memory in regions and the string routines.
* `src/engine` is the runtime under those routines: heap, files, directories,
  formatted text, cooperative threads. Each call is one step from state to
  state; what it needs to know and what it wants done are plain values.
* `src/oracle`, `src/stream.rs`, `src/wav.rs` and `src/speak` are captures, the
  phone stream, the audio file and the command line.

Floating point, the disk, the clock and real threads stay in `app`, the program
around the library. Laws that relate several functions are public proof
functions beside the functions they speak of.
