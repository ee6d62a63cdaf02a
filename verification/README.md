# image_viewer

A keyboard-driven image viewer. The library in `src/` holds its logic and is
verified with Verus; `app/` is the iced program around it (window, drawing,
file reading, background loading, zoom arithmetic in floating point).

## Layout

- `src/path.rs`: Unix path text as `std::path::Path` reads it (components,
  file name, extension, component-wise equality).
- `src/order.rs`: file-name and whole-path orders, and a stable sort.
- `src/extensions.rs`: image extensions, matched without regard to ASCII case.
- `src/file_manager.rs`: the sorted image list of a folder and wrapping
  navigation through it.
- `src/thumbnails.rs`: the thumbnail grid and its selection.
- `src/image_data.rs`: decoding through the `image` crate and the size text.
- `src/image_cache.rs`: the LRU image cache over the `lru` crate.
- `src/viewer.rs`: what the viewer does after each event and key.
- `src/session.rs`: the desktop shell's state (image list by path, pending
  paths, startup arguments).
- `src/menu.rs`: the menu ids passed on to the page.
- `tests/`: tests of the library on concrete values.
- `app/`: the iced application.
