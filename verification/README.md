# ovim_core

The editing core of a modal text editor. The functions of `src/` are verified:
what each returns or changes is stated in its contract over a mathematical model
of the text, the cursor, the registers and the other parts of the editor.

| Part | Modules |
| --- | --- |
| Text and its columns | `text`, `fmt`, `lines`, `line_edits`, `unicode`, `display`, `text_index`, `rope`, `buffer` |
| Indentation | `indentation`, `syntax`, `paths`, `auto_indent`, `lexing_moves`, `editor::reindenting` |
| Lines on the screen | `line_layout`, `row_tiling`, `highlight_index` |
| Reviews of changes | `native_diff`, `diff_review`, `editor::review` |
| Language servers | `lsp`, `editor::lsp_state`, `editor::diagnostics`, `editor::text_edits` |
| Editing | `editor::input`, `editor::motions`, `editor::register`, `editor::clipboard`, `editor::routing`, `editor::execution`, `editor::undoing`, `editor::copying` |
| Buffers and tabs | `editor::buffer_manager`, `editor::tab_pages`, `editor::tab_manager` |
| An agent's tools | `ai`, `editor::ai_chat`, `json` |

What holds across functions is stated by public proof functions beside them:
undoing a recorded change gives the text back, deleting a selection takes out
what copying it takes, reindenting changes leading blanks alone, the rows of a
wrapped line tile it, a comparison read page by page loses nothing, a server
that applies the changes it is sent holds the editor's text.

What comes from other crates (ropes, grapheme clusters, terminal widths, regular
expressions, base64, SHA-256, JSON) is called through small functions whose
bodies are not verified; their doc comments say what is taken on trust.

`app/` is what surrounds the library: the system clipboard, files, Git, the
stores of saved reviews and the traffic with language servers.
