# tylax

Typst → LaTeX conversion with a verified core.

The library (`src/`) takes evaluated Typst content, described as a plain
element tree (`typst2latex::lower::Node`), and:

- collects the labels the document defines (`typst2latex::labels`),
- lowers the tree into a LaTeX intermediate representation
  (`typst2latex::lower`, with math in `lower_math` and fletcher diagrams in
  `lower_fletcher`), recording every construct it cannot lower; for
  diagrams it also splits a matrix-style body into cells and rows
  (`matrix_layout`) and chooses which nodes the edges of a coordinate-style
  diagram join (`edge_ends`),
- enforces the unsupported-construct policy and wraps the rendered body in a
  document (`typst2latex::finish_conversion`, `typst2latex::convert_content`)
  whose preamble declares the theorem environments used
  (`typst2latex::theorems`) and carries the page size, margin and numbering
  (`typst2latex::extract`),
- renders the intermediate representation to LaTeX source (`typst2latex::ir`).

Each of these is proved against a mathematical description of its result;
the public `law_*` proof functions state properties that hold across calls
(unsupported constructs never vanish, labels are emitted, bibliography
resources are kept without repetition, table rows partition the cells, grid
directions read back as the deltas they were written for, a full document
is the bare output between a preamble and `\end{document}`, ...).

`src/detect.rs` holds the input-format detection and the automatic choice of
direction; the two converters it chooses between are passed in.

`app/` is the part that needs the Typst compiler: loading files, evaluation,
math realization and show rules, and reading the evaluated content (and
fletcher markers, whose coordinates are floating-point) into the element
tree.
