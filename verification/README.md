# jab_wrapper

A verified library behind a Java Access Bridge automation service. It holds the
accessibility tree of a Java window and finds elements in it with CSS-like
selectors.

- `selector`: the selector language — a lexer and a parser proved equal to a
  grammar written as spec functions, the selector syntax tree and its display.
- `context_tree`: the tree of a window — building it from the elements read
  (handles handed out in a fixed order), matching selectors against its nodes,
  following the bridge's change events, and the laws that the tree stays well
  formed through building, rebuilding and every update.
- `query`: a tree of elements searched with field locators (name, role, text,
  ancestors, descendants).
- `registry`: handles for the Java objects handed out to clients, with the law
  that a handle reads as its element until released and is never handed out twice,
  and the hand-over of every element and the root when the registry shuts down.
- `service`: the answers of the service about the selected window's tree, and the
  steps of a wait for a selector (a 60 s default timeout).
- `bridge`, `text`, `pattern`, `error`: decoding the bridge's texts, listing the
  Java windows (and the root objects to release), choosing actions, splitting
  texts into ranges, regular expressions, error messages.

`app/` holds the program around the library: argument handling, the interface to
the bridge, and the glue that reads elements from it, hands them to the library
and performs the actions and waits that the library decides.
