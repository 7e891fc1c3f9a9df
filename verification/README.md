# whiteboard

A drawing whiteboard: a canvas of RGBA pixels shown through SDL's GPU API,
drawn on with a pencil or an eraser along mouse strokes, with a history of
strokes that can be undone and redone.

The logic is a Verus library under `src/`, every function of it verified:

- `geometry`: points, rectangles and their arithmetic;
- `line`: the stepping line walk between two window points, with its laws;
- `color`, `canvas`, `pixels`: colours, the pixel buffer and the sets of
  pixels and points that strokes record;
- `painting`: what drawing and erasing do to a buffer, in any order;
- `whiteboard`: the canvas with its history, `undo`, `redo` and `commit`;
- `stroke`: what one mouse movement does for each tool;
- `session`: the decisions taken for each input event;
- `laws`: what undo and redo give back after a stroke.

`app/main.rs` is the program around it: the window, the GPU pipeline, the
shaders (read at start from `src/shaders/` or the directory named by
`WHITEBOARD_SHADERS`), the floating-point placement of the canvas on screen,
and the event loop that hands each event to `Session::handle_event`.
