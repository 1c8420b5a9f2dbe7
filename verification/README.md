# tinypngx

Compresses the images of a directory with the TinyPNG service, many at a time and with several API
keys.

- `src/` is the library, verified with Verus. It holds the rules: how keys and their monthly
  credits are kept (`state`, `keys`, `table`, `clock`), which key is taken once the keys have
  their scores (`client`), what is kept of former downloads (`cache`), how one image is compressed
  (`compress`), backed up and restored (`task`), how all images of a run are found, divided and
  collected (`image`, `batch`), how a run goes (`cli`) and what is reported (`stats`). `text` writes
  and parses numbers.
- `app/` is the program around it: files, network, terminal, and what is floating point and so not
  verified: the score of a key, the saved percentage of an image, and the shares in the report.
- `tests/` runs the library on concrete values.

Laws that hold of the library as a whole are the public proof functions whose names start with
`law_`.
