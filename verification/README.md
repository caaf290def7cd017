# rustretro

The logic of a libretro frontend's debugger, as a Verus-verified library:
how guest addresses map onto the memory regions a core publishes, RAM
search, the address history, held and injected input, the input log's run
collapsing, the core-log rate limiter, the audio sample queue, VDP register
decoding, NES CHR / OAM / nametable decoding and the CHR tile editor,
control bindings and rebinding, the frame lab's table texts and provenance
summary, matchup coverage, training settings, and the text every panel shows.

Each public function states what it returns in `requires` / `ensures` over
mathematical models (`Seq`, `Set`, `Map`, `int`), and the properties that
span several calls are stated and proved as `pub proof fn lemma_*` items
next to the functions they relate.

## Layout

- `src/` — the verified library, one module per concern (`lib.rs` lists
  them). Calls into std or outside crates that Verus cannot read sit behind
  a few small `#[verifier::external_body]` wrappers whose doc comments say
  what is assumed of them (capstone's 68020 disassembler,
  `str::to_lowercase`, `String::push`, `PathBuf::from`). Times reach the
  library as nanoseconds on a monotonic clock.
- `tests/` — ordinary Rust tests against the library.
- `app/` — the unverified shell: file and memory I/O, serde copies of the
  library's persisted types, PNG export, directory scans, and the cpal
  audio stream (floating-point resampling and volume).
