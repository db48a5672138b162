# step-loupe

The logic of an in-browser STEP (ISO 10303) viewer built on
[step-io](https://crates.io/crates/step-io): how a read file becomes the scene
tree, detail-pane metadata, highlight map and geometry requests that the
three.js front-end renders. The library is written in Verus and every function
in `src/` carries a contract that Verus proves, except two small trusted
wrappers whose contracts are assumed: `step_file::step_read` (around
`step_io::read`) and `text::push_char` (around `String::push`).

## Layout

```
src/model.rs      the scene as plain values (integer keys, arenas, rendered numbers)
src/text.rs       text primitives: decimals, padding, hex, trimming, kind names
src/labels.rs     labels and rows of vertices, edges, faces, solids
src/product.rs    definition labels, placement and PLM rows
src/builder.rs    the id counter, instance maps, highlights, b-rep walk
src/assembly.rs   the assembly walk (placed instances, cycle guard)
src/pmi.rs        features, datums, dimensions, tolerances, meshes
src/info.rs       header, reader report, units
src/bundle.rs     the whole bundle of a file
src/step_file.rs  reading the bytes with step-io
src/laws.rs       properties proved across calls and states
app/              wasm entry point `load_step`, conversion from step-io's
                  scene, floating-point geometry, JSON output
tests/            tests on concrete values
```
