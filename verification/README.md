# minisvg

A small SVG renderer, written in Verus and verified.

- `xml` – a streaming tokenizer (start tags, attributes, end tags; processing
  instructions, comments and declarations skipped) and the lexer of `style`
  values.
- `svg` – what each tokenizer event does: enter or leave an element, apply a
  style property or the view box, draw a path.
- `document` – `parse_svg`, which runs the tokenizer and carries out those
  actions on a state stack and a rasterizer.
- `path`, `transform`, `number` – lexers for path data and transform lists,
  the path command state, and the transform matrices.
- `state` – drawing states and the bounded stack of them.
- `rasteriser`, `raster`, `cubic`, `sweep` – edges from path segments
  (filled or stroked, curves flattened), the scanline sweep over them, and
  the filling of a scanline under the non-zero and even-odd rules.
- `color`, `keywords`, `bytes` – paint values and the byte-level helpers.

Geometry is computed in a number type chosen by the caller through the
`scalar::Scalar` trait, whose operations are given by spec functions that
the implementing type defines; the
contracts (path outlines, edges, transforms, the pixels of a rendered
document) are stated over them. `app/` and the tests use `f32`. `app/main.rs` renders
an SVG file into a PPM image.
