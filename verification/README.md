# voxelcraft

The world rules of a voxel engine, verified with Verus: the block table, chunk lighting,
the edit journal's file format, the preferences file, the command line's grammar, the look
book's contact sheets, the menus' navigation, the renderer's buffer bookkeeping, and the
image metrics of the measurement fixture.

## Layout

| Path | |
|---|---|
| `src/block.rs` | block ids, the block table, face words, what may sit in the hotbar |
| `src/voxel.rs` | chunk-local voxel addressing |
| `src/light.rs` | sky pour, per-channel flood fill, brick packing of a chunk's light, relighting after an edit |
| `src/journal.rs` | the edit journal's byte format, its recovery rules, the `--bar` argument |
| `src/edits.rs` | a session's edits by chunk: recording, applying to a chunk, listing for a save, replaying a load |
| `src/lookbook.rs` | the 5x7 font, text drawing, tile shrinking, group and sheet layout |
| `src/menu.rs` | screens, settings pages, focus and keys, the shader experiments' lock |
| `src/settings.rs` | colour grades, the record of what applying settings redoes (filled in `app/`, whose preferences hold floats), reading and writing the preferences file |
| `src/config.rs` | the command line: modes, flags and their values, `--diff` options, unknown arguments, what the flags set of the integer, named and on/off switches, the journal files it names and when opening them is refused |
| `src/lod.rs` | chunk residency, fade schedules, how drawn chunks spread over the levels |
| `src/idle.rs` | whether a frame renders or repaints the last one |
| `src/render.rs` `src/pools.rs` | pair budget, tile grid, pipeline flags, the occupancy grid, buffer growth and dirty-range uploads |
| `src/scene.rs` | the two pipeline words a configuration turns into |
| `src/harness/` | capture recipes, vantage selection by name, crop contents, image metrics, SHA-256, PNG bytes to images and back |
| `src/text.rs` | decimal and hexadecimal digits, trimming and splitting text, what `f32` reads |
| `tests/` | tests on concrete values, one file per area |
| `app/` | the command line: reading and writing files, the preferences' floating-point values |
