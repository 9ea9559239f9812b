# FastCull

FastCull looks through folders of Sony ARW photographs: it shows the JPEG that the
camera put into each file, takes ratings, and moves rejects aside. This crate holds
its logic as a Verus library, with the programs around it.

## Layout

- `src/arw`, `src/metadata`: embedded previews and display metadata of ARW files, and
  ratings in XMP sidecars.
- `src/image`: memory accounting, the cache of decoded images, the decoder, and
  which photograph is decoded next.
- `src/browser`: order of names, navigation, the filmstrip's window, filters.
- `src/app`: the viewer. `App` takes in events and gives out actions and questions;
  its model (`Model`) says what each of them does. The workers for files, thumbnails,
  textures and the session are state machines of their own; `disk` says what moves and
  their undo do to a disk.
- `src/bench`: command lines, orders and accounting of the measuring tools.
- `app`: windows, menus, dialogs, threads and files. Nothing there is verified.
- `tests`: what the library does on given values.

## How to read it

A type that holds bytes or texts has a view (`@`) over sequences, and contracts
speak of views. `sound()` is what a type keeps. Functions named `law_...` state what
holds of several operations together.

Paths are bytes, and equal if they name the same components; times are milliseconds;
images and textures are numbers that the programs hand out. Where a worker waits, the
library answers "not yet".

A few functions of std and of `zune-jpeg` are called through wrappers whose contracts
are taken on trust; each says so above its header.
