# innovus

A small 2D/3D game engine and the games built on it (a block sandbox, a
snake demo and the start of Stratego), with the engine's logic verified by
Verus.

## Layout

- `src/` — the verified library:
  - `arena`: versioned slot arenas (bounded and unbounded) with handles that
    die when their value is removed;
  - `image`: RGBA images, their decoding from PNG bytes, and the image
    atlas that packs them;
  - `rect`, `phys`: integer rectangles, collision sides, hit flags and the
    collider store with its candidate pairs;
  - `geometry`, `mesh`, `obj`, `glyph`: vertex/triangle lists, icosphere
    subdivision, the OBJ mesh reader and text layout;
  - `block`, `world`, `appearance`, `asset`, `palette`: block types and
    blocks, chunks with light and render marks, block appearances and their
    image keys, block and entity image metadata, GIMP palettes;
  - `json_data`: JSON text read into plain data, with the readings that
    block image metadata and block state conditions take from it;
  - `input`, `game`, `render`, `snek`, `stratego`, `tools`, `words`: held and
    pressed keys, the per-frame block cursor, the batched entity piece store
    and animation frames, the snake, Stratego pieces, identifiers, and the
    word splitting that the text formats share.
- `tests/` — tests of the library on concrete values.
- `app/` — the programs: OpenGL and GLFW, image and JSON file reading,
  floating-point vectors, physics sweeps and cameras, and the main loops.
