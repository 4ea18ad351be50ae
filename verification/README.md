# kdeocr

Offline text recognition for KDE Plasma, with its logic verified by Verus.

- `src/` is the library. `ocr` goes from an image to its text: preparing network inputs, finding
  boxes and lines, cutting and reading lines, checking model packages. `models` holds the model
  index, the configuration, and the steps of installing and removing a model. `keyboard` reads
  shortcuts and decides for the shortcut daemon. `cli` holds the errors, exit codes and the steps of
  a capture. `text`, `names`, `order`, `path` and `arith` are what these build on.
- `app/` is the program `kocr` around the library: arguments, files, processes, the session bus, the
  inference runtime, and geometry in floating point.
- `tests/` runs the library.

Work that alternates between the system and decisions is written as steps: the library says what to
do next, the program does it and hands the reply back.

Scores and coordinates enter the library by the bits of single-precision numbers.

The program reads the index of models from `index.toml` in `kdeocr`, below the user's data directory.
