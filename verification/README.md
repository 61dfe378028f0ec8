# Numera

Numera helps with the photographs of an event in which every participant wears a
number. It exports pictures in batches, with text, watermarks and poster sizes; it
numbers pictures by hand or on its own; and it sorts files into one folder per number.

## Layout

- `src/` is the library: everything that is decided or computed. It is written for
  Verus, which checks each function against its contract.
- `tests/` runs the library on concrete values, together with the crates it calls.
- `app/` is the program around the library: windows, files, databases, devices, and
  what is computed with floating-point numbers.

## The library

| Modules | What they are about |
|---|---|
| `text`, `paths`, `note`, `score`, `ranking`, `collections` | text, paths, notes with numbers in them, floating-point values by their patterns, rankings, hash tables |
| `raster`, `image_ops`, `image_cache`, `batch` | pictures, what is done to them, the previews that are kept, exports |
| `ocr_setup`, `ocr_engine`, `ocr`, `ocr_result`, `ocr_cache`, `template_search` | reading numbers in pictures |
| `numbering_state`, `numbering_session`, `numbering_mode` | numbering by hand |
| `autonomous`, `autonomous_window` | numbering without anybody looking |
| `event_config`, `sticker_matcher`, `number_cropper`, `pipeline`, `db`, `sorter`, `image_loader` | sorting an event by the numbers on its stickers |
| `embedding`, `visual_matcher` | sorting an event by what its pictures look like |
| `numbered_sort`, `app_state`, `vector_experiment` | the main window, and sorting by file names |

Numbers that have a fraction appear in the library as `Score`, the bits of a 32-bit
floating-point value. The library compares and ranks them; the program computes with
them and hands the results in.

Work that goes back and forth between decisions and files is written as steps: the
library names the next step, the program takes it and reports what came of it.
