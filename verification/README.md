# kitwin

kitwin runs the JWM window manager in a hidden X server, captures the screen
with FFmpeg and shows it in a terminal through the Kitty graphics protocol;
keys, clicks and scrolls go back to the X server, and a per-process
PulseAudio sink carries the desktop's audio.

## Layout

- `src/` is the library, verified with Verus:
  - `kitty`: the graphics escape stream (zlib through flate2, base64 through
    the base64 crate, 4096-byte chunks), image deletion, and the retry rule
    for writes to a non-blocking terminal;
  - `renderer`: frame pacing, image ids, frame plans, the status bar;
  - `capture`: the frame handed to the renderer and the buffer pool;
  - `diff`: tiles of the cell grid and dirty-tile checks;
  - `layout`: fitting the desktop into the terminal and mapping clicks back;
  - `input`: key translation, the Ctrl+B leader, mouse events, prompts;
  - `audio`: server choice, `pactl` replies, volume, mute and status texts;
  - `session`: persistent sessions and their state files;
  - `display`, `config`, `text`: X display names and paths, settings, and
    the string helpers the rest is stated over.
- `tests/` runs the library on concrete values.
- `app/` is the program: command line, terminal, threads, FFmpeg, cpal,
  child processes and files.
