# pixel_editor

The verified core of a small layered pixel-art editor, written in Verus.

- `src/` is the library, verified by Verus:
  - `types`: pixel coordinates and rectangles;
  - `bresenham`: line rasterisation, with its exact pixel sequence and the
    facts that a line ends at its end point and moves by neighbouring pixels;
  - `color`: premultiplied colours, with fading and blending through egui;
  - `image`: pixel buffers, premultiplying decoded bytes through egui, and
    copying blocks out of them;
  - `edit`: pixel and block edits, each returning the edit that undoes it;
  - `textureimage`: an image with undo and redo histories, and the edits the
    tools make on it (filling, painting points, copying, cutting, pasting);
  - `layermanager`: the stack of equally sized layers, reordering, the
    settings dialog state and compositing for saving;
  - `tools`: what each tool does when the pointer is dragged or released.
- `app/` is the egui program around it: windows, input, textures, file
  dialogs and image files.
- `tests/` runs the library on concrete pictures.
