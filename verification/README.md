# abner

A/B testing for videos: two or more clips play in frame-locked sync, and one flips,
blends or diffs between them. This crate is the player's core, written in Verus: what
every key and pointer event does, the master clock, the frame queues, the reader of a
stream, the draw list of a frame, masks, crops, and the files they are saved to. Each
function states what it returns or changes, and the statements are proved.

## Layout

| Module | What it holds |
|---|---|
| `app`, `input`, `keys`, `pointer` | the application's state and what events do to it |
| `tick`, `frame` | one frame: clock, loop, draining the streams, the draw list |
| `scene`, `hud`, `transport`, `statusline`, `palette`, `items` | what is drawn |
| `geometry`, `zoom`, `units` | the one transform every picture shares; rounding |
| `player`, `decode`, `deliver` | a stream's queue, the reader that fills it, and a picture's way there |
| `mask`, `capsule`, `crop` | painting and cutting pictures |
| `pngfile`, `logo`, `save`, `paths` | pictures as files |
| `probe`, `parse`, `readout` | what `ffprobe` reports; numbers as text and back |
| `font`, `text`, `render`, `textures` | glyphs, draw calls and textures |
| `runner`, `pace`, `schedule`, `open` | the command line and the window loop |
| `laws`, `ids` | what holds of the application as a whole |

`app/` is the program around the library: the window, the GPU, ffmpeg and the disk.

## Units

The library counts in whole numbers. Lengths are hundred-thousandths of a pixel; ratios and
times are billionths, so times are nanoseconds. Quotients are rounded to the nearest
unit. `app/` converts to and from floating point at its edge.

## What is believed

A few functions of other crates are called through declarations that are believed
rather than proved, each with its claim above it: reading JSON (`probe`), reading and
writing PNG (`pngfile`), parsing a font and finding a character's glyph (`font`), and
two functions of the standard library (`readout`, `font`).

## Building the program

The decoder links the ffmpeg 8 libraries, and clips are described by the `ffprobe`
command. `logo.png` and `app-icon.png` are looked for beside the executable.
