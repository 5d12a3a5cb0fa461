# cheap-note

A handwriting note: a window to write in with a pen, with a PDF page behind the ink.

`src/` is the library, written in Verus: the ink and its history, the pages of a note, what has to be
handed to the note and when, the encoding the ink is kept in, the file a note is carried in, the list of
what was opened, and what the window shows and says. Every function carries a contract that Verus proves,
but for the wrappers named below, whose contracts it believes.

| Modules | What they hold |
| --- | --- |
| `ink`, `notes`, `pages`, `session` | readings to strokes, a note's pages, and what reaches the note |
| `wire`, `arrays`, `packers`, `chunk` | ink as bytes, and back |
| `zips`, `archive`, `bundle`, `legacy`, `note`, `walk` | a note as one file, and how one is placed |
| `recent`, `home`, `names`, `paths` | the list of what was opened, and what things are called |
| `canvas`, `settings`, `cursor`, `refresh`, `clock` | the sheet, the pen, and the clocks |
| `raster`, `pdf`, `pdfium`, `pen` | what is rendered when, and the queue between pen and window |
| `bar`, `commands`, `messages`, `text`, `error` | the controls, the keyboard, and the words |

What is believed rather than proved is in `packers` (crc32fast, zstd, lz4_flex), `zips` (zip), `pdf`
(image), and a few items of the standard library in `names`, `text` and `refresh`; each says what it
claims.

`tests/` runs the library. `app/` is the program around it: the window (GPUI Kit), the pen
(`pen-windows`), Pdfium, and the disk. Positions and widths are floating-point numbers, so their geometry
is there too.
