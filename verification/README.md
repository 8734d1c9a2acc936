# cosmic_ext_workspaces_bar

A bar with live workspace previews and media controls for the COSMIC desktop.

`src/` is the logic of the bar as a verified library: what each event does to
the bar and what has to be done about it, how frames are scaled, cropped and
compared, when the next one is asked for, which media player is shown, which
album art is kept on disk, and what the bar, its menu and its settings show.
`app/` is the program around it: windows, D-Bus, Wayland, files and the network.
It hands events to the library and carries out the actions that come back.

## Layout of the library

- `bar` - the state machine of the bar. `model` says what each message does,
  `app` does it, and `laws` and `identity` state what holds over runs of
  messages. `geometry` measures bars and cropped strips, and `shell` is the
  application seen from the toolkit.
- `backend` - captures (`captures`, `session`), the pixels of previews
  (`pixels`, `strips`), buffers (`buffers`), power events (`power`), and media
  players (`media`).
- `content`, `view`, `settings`, `config` - what is shown, how large it is, and
  what can be set.
- `float` - single and double precision numbers by their bits, with the rounding
  of IEEE 754. Sizes and colors are computed with these, so that contracts can
  speak of them exactly.
- `sort`, `text` - stable sorting, and texts as sequences of characters.

## What is taken on trust

- `str::to_lowercase` and `String::push` of the standard library (`text`).
- Decoding images with the `image` crate (`backend::media::art`).

## Numbers

Outputs, workspaces, surfaces, images and timers are known to the library by
number. The program keeps the tables that lead back to the objects. Arithmetic
that can exceed its type wraps around, as in a release build.
