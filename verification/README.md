# fast-transcript (verified core)

`fscript` transcribes long lectures locally.  This crate holds the parts of
it that decide things, written in Verus with their contracts proved:

- `cli`, `usage`: the command line and the help text;
- `paths`, `model`: default output files and model locations;
- `transcribe`: chunk plans, merging the texts and segments of neighbouring
  chunks;
- `diarization`: the helper's command line, its errors and its answer;
- `remote`: URLs, subtitle track choice, `yt-dlp` command lines, WebVTT and
  json3 subtitles;
- `output`: time stamps, speaker labels, repetition cleaning and every
  output format;
- `progress`, `audio`: progress lines and the audio conversion commands;
- `binary64`, `number`, `text`: IEEE 754 values held by their encoding,
  integer parsing, and text primitives.

`app/` is the program around it: it reads the environment, runs `ffmpeg`,
`yt-dlp`, the speech model and the diarization helper, and writes files.
