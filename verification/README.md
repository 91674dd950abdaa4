# mediamerger

Combines two encodes of the same movie into one synced `.mkv`: the video of
one file (File A, the timeline reference) with chosen audio and subtitle
tracks of the other (File B), File B's tracks delayed by the measured offset
between the two.

The library (`src/`) is verified with Verus:

- `probe` — media files and tracks from mkvmerge's JSON identification.
- `mux` — the merge plan and the exact mkvmerge argument list for it, with
  laws on what the command holds (every `--sync` stands in File B's block,
  one per File B track with its delay; chapters, attachments and tags are
  dropped file by file as the plan asks).
- `state` — the merge session: track rows, framerate check and override,
  detected or entered offset, extras, and the rules for when detection and
  merging may start; each interface event is a verified transition.
- `offset` — the integer side of offset detection (sample words, transform
  length, peak lag, ffmpeg window arguments).
- `theme` — reading `#rrggbb` / `#rgb` colours (a formatted colour reads
  back as its bytes).
- `text`, `paths` — character-level helpers and `std::path` calls.

`app/` is the GNOME desktop program around it: the `iced` interface, the
ffmpeg/ffprobe/mkvmerge processes, JSON parsing with serde, and the
floating-point audio correlation with rustfft.

Offsets are held in the library as whole milliseconds (the resolution of
mkvmerge's `--sync`); the interface converts from and to seconds.
