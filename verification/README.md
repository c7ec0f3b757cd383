# Orochi

A desktop companion with four tools: a GIF maker that captures a region of the screen frame by
frame, a text paster on global hotkeys, a floating cursor overlay, and a quality dashboard that
collects the comments left on clips over a loopback connection.

- `src/` is the library, written in Verus: what the tools decide and compute, each function with
  its contract, and the laws that hold across them as public proof functions.
- `app/` is the program around it: windows, hotkeys, screen grabs, clipboard, disk and network. It
  hands the library what they answer and does what the library says.
- `tests/` runs the library.

| module | what it holds |
| --- | --- |
| `frame` | captured frames, regions and cropping |
| `picture` | scaling, PNG files, data URLs and thumbnails |
| `gif` | GIFs from frames, and the names of their files |
| `monitors` | which monitor to grab, and the bounds of the desktop |
| `overlay` | the windows in which a region is drawn |
| `shortcuts` | which accelerators to register and what they do |
| `paste` | the course of a paste, from the clipboard and back |
| `cursor` | the cursor overlay: its configuration, window and reports |
| `winutil` | clipboard blocks, key strokes and cursor images |
| `quality` | the store of comments and the payloads that fill it |
| `bridge` | the routes and answers of the local HTTP bridge |
| `state` | the state behind the GIF maker and the text paster |
| `json`, `text` | JSON texts and strings, as far as the others need them |

What the library takes from other crates (`serde_json`, `image`, `base64`, `global-hotkey`) it
takes through functions whose doc comments say what is believed of them.
