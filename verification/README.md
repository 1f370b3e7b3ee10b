# Mosaic

A tray tool for region screenshots and scrolling captures, with an annotation editor.
The verified library (`src/`, checked by Verus) holds the logic; the program around it
(`app/`) holds the window, the tray, the screen grabbing and the files.

## Library modules

- `image` — an RGBA image with its mathematical model (`ImageModel`): size and bytes,
  pixels, cropping and pasting (through `image::imageops`).
- `overlap` — how far two consecutive frames of a scrolling capture overlap, scanning
  rows (`find_overlap`) or columns (`find_overlap_horizontal`).
- `stitch` — joining the frames of a scrolling capture into one image.
- `blur` — the pixelating blur of a region, in blocks of 12 by 12 pixels.
- `session` — the states of the tool and how events move it between them.
- `editor` — the annotation editor's tools, annotation list, selection, drawing and
  step numbering.
- `desktop` — the rectangle covering all monitors and the mapping of a selection into a
  monitor's screenshot.
- `files` — paths of the settings, icon, menu and autostart files, their contents, and
  the texts shown after a capture.

## Program

`app/main.rs` runs the event loop: it turns tray, mouse and button input into
`session::Event`s, performs the `session::Action` that comes back, and keeps the
geometry of annotations next to the library's `editor::Editor`.
